use vstd::prelude::*;

verus! {

/// ASCII lowercasing of one character; everything else is left alone.
pub open spec fn lower(c: char) -> char {
    if c == 'A' {
        'a'
    } else if c == 'B' {
        'b'
    } else if c == 'C' {
        'c'
    } else if c == 'D' {
        'd'
    } else if c == 'E' {
        'e'
    } else if c == 'F' {
        'f'
    } else if c == 'G' {
        'g'
    } else if c == 'H' {
        'h'
    } else if c == 'I' {
        'i'
    } else if c == 'J' {
        'j'
    } else if c == 'K' {
        'k'
    } else if c == 'L' {
        'l'
    } else if c == 'M' {
        'm'
    } else if c == 'N' {
        'n'
    } else if c == 'O' {
        'o'
    } else if c == 'P' {
        'p'
    } else if c == 'Q' {
        'q'
    } else if c == 'R' {
        'r'
    } else if c == 'S' {
        's'
    } else if c == 'T' {
        't'
    } else if c == 'U' {
        'u'
    } else if c == 'V' {
        'v'
    } else if c == 'W' {
        'w'
    } else if c == 'X' {
        'x'
    } else if c == 'Y' {
        'y'
    } else if c == 'Z' {
        'z'
    } else {
        c
    }
}

/// ASCII lowercasing of a whole character sequence.
pub open spec fn lower_seq(s: Seq<char>) -> Seq<char> {
    Seq::new(s.len(), |i: int| lower(s[i]))
}

/// The index of the first occurrence of `n` in `h`, if there is one.
pub open spec fn find_sub(h: Seq<char>, n: Seq<char>) -> Option<nat>
    decreases h.len(),
{
    if n.len() == 0 {
        Some(0)
    } else if h.len() < n.len() {
        None
    } else if h.take(n.len() as int) == n {
        Some(0)
    } else {
        match find_sub(h.skip(1), n) {
            Some(k) => Some(k + 1),
            None => None,
        }
    }
}

/// The length of the prefix before the first occurrence of `stop` (the whole
/// sequence when it never occurs).
pub open spec fn prefix_len_until(s: Seq<char>, stop: char) -> nat
    decreases s.len(),
{
    if s.len() == 0 || s[0] == stop {
        0
    } else {
        (1 + prefix_len_until(s.skip(1), stop)) as nat
    }
}

/// The lines of a text, split on newline characters.
pub open spec fn split_lines(s: Seq<char>) -> Seq<Seq<char>>
    decreases s.len(),
{
    let ll = prefix_len_until(s, '\n') as int;
    if ll >= s.len() {
        seq![s]
    } else {
        seq![s.take(ll)] + split_lines(s.skip(ll + 1))
    }
}

/// The replay tool's name, as looked for in a process-table line.
pub open spec fn tool_pattern() -> Seq<char> {
    "fossilize_replay"@
}

/// The path fragment that precedes the application identifier in a per-app
/// shader-cache path.
pub open spec fn marker_pattern() -> Seq<char> {
    "steamapps/shadercache/"@
}

/// A line counts when it names the replay tool (case-insensitively, by ASCII
/// folding) and holds the shader-cache path marker.
pub open spec fn line_selected(line: Seq<char>) -> bool {
    find_sub(lower_seq(line), tool_pattern()) is Some && find_sub(line, marker_pattern()) is Some
}

/// What stands between the first shader-cache marker of a line and the next
/// path separator (or the line's end): the application identifier.
pub open spec fn extract_id(line: Seq<char>) -> Seq<char> {
    match find_sub(line, marker_pattern()) {
        Some(k) => {
            let rest = line.skip(k + marker_pattern().len() as int);
            rest.take(prefix_len_until(rest, '/') as int)
        },
        None => Seq::empty(),
    }
}

/// The identifier extracted from the first selected line, if any line is
/// selected.
pub open spec fn scan_lines(ls: Seq<Seq<char>>) -> Option<Seq<char>>
    decreases ls.len(),
{
    if ls.len() == 0 {
        None
    } else if line_selected(ls[0]) {
        Some(extract_id(ls[0]))
    } else {
        scan_lines(ls.skip(1))
    }
}

/// What scanning a whole process table yields.
pub open spec fn scan_spec(text: Seq<char>) -> Option<Seq<char>> {
    scan_lines(split_lines(text))
}

/// ASCII lowercasing of one character.
fn lower_exec(c: char) -> (r: char)
    ensures
        r == lower(c),
{
    if c == 'A' {
        'a'
    } else if c == 'B' {
        'b'
    } else if c == 'C' {
        'c'
    } else if c == 'D' {
        'd'
    } else if c == 'E' {
        'e'
    } else if c == 'F' {
        'f'
    } else if c == 'G' {
        'g'
    } else if c == 'H' {
        'h'
    } else if c == 'I' {
        'i'
    } else if c == 'J' {
        'j'
    } else if c == 'K' {
        'k'
    } else if c == 'L' {
        'l'
    } else if c == 'M' {
        'm'
    } else if c == 'N' {
        'n'
    } else if c == 'O' {
        'o'
    } else if c == 'P' {
        'p'
    } else if c == 'Q' {
        'q'
    } else if c == 'R' {
        'r'
    } else if c == 'S' {
        's'
    } else if c == 'T' {
        't'
    } else if c == 'U' {
        'u'
    } else if c == 'V' {
        'v'
    } else if c == 'W' {
        'w'
    } else if c == 'X' {
        'x'
    } else if c == 'Y' {
        'y'
    } else if c == 'Z' {
        'z'
    } else {
        c
    }
}

/// A digit-prefix-style characterization: a stop-free prefix of length `j`
/// followed by the stop character or the end is the longest such prefix.
proof fn lemma_prefix_len_unique(s: Seq<char>, stop: char, j: int)
    requires
        0 <= j <= s.len(),
        forall|i: int| 0 <= i < j ==> s[i] != stop,
        j == s.len() || s[j] == stop,
    ensures
        prefix_len_until(s, stop) == j,
    decreases s.len(),
{
    if s.len() > 0 && s[0] != stop {
        let t = s.skip(1);
        assert forall|i: int| 0 <= i < j - 1 implies t[i] != stop by {
            assert(t[i] == s[i + 1]);
        }
        if j - 1 < t.len() {
            assert(t[j - 1] == s[j]);
        }
        lemma_prefix_len_unique(t, stop, j - 1);
    }
}

/// The first index at or past `start` holding `stop` (or the end of `v`).
fn scan_until(v: &Vec<char>, start: usize, stop: char) -> (end: usize)
    requires
        start <= v.len(),
    ensures
        start <= end <= v.len(),
        prefix_len_until(v@.skip(start as int), stop) == end - start,
        forall|j: int| start <= j < end ==> v@[j] != stop,
        end < v.len() ==> v@[end as int] == stop,
{
    let mut i = start;
    while i < v.len() && v[i] != stop
        invariant
            start <= i <= v.len(),
            forall|j: int| start <= j < i ==> v@[j] != stop,
        decreases v.len() - i,
    {
        i += 1;
    }
    proof {
        let s = v@.skip(start as int);
        assert forall|j: int| 0 <= j < i - start implies s[j] != stop by {
            assert(s[j] == v@[start + j]);
        }
        if i < v.len() {
            assert(s[i - start] == v@[i as int]);
        }
        lemma_prefix_len_unique(s, stop, i - start);
    }
    i
}

/// A match at `i`, with none earlier, is the first one.
proof fn lemma_find_sub_first(h: Seq<char>, n: Seq<char>, i: int)
    requires
        n.len() > 0,
        0 <= i,
        i + n.len() <= h.len(),
        h.subrange(i, i + n.len()) == n,
        forall|j: int| 0 <= j < i ==> #[trigger] h.subrange(j, j + n.len()) != n,
    ensures
        find_sub(h, n) == Some(i as nat),
    decreases h.len(),
{
    if i == 0 {
        assert(h.take(n.len() as int) == h.subrange(0, n.len() as int));
    } else {
        assert(h.subrange(0, 0 + n.len() as int) != n);
        assert(h.take(n.len() as int) == h.subrange(0, n.len() as int));
        let t = h.skip(1);
        assert(t.subrange(i - 1, i - 1 + n.len()) =~= h.subrange(i, i + n.len()));
        assert forall|j: int| 0 <= j < i - 1 implies #[trigger] t.subrange(j, j + n.len()) != n by {
            assert(t.subrange(j, j + n.len()) =~= h.subrange(j + 1, j + 1 + n.len()));
        }
        lemma_find_sub_first(t, n, i - 1);
    }
}

/// No match anywhere means no occurrence.
proof fn lemma_find_sub_none(h: Seq<char>, n: Seq<char>)
    requires
        n.len() > 0,
        forall|j: int| 0 <= j <= h.len() - n.len() ==> #[trigger] h.subrange(j, j + n.len()) != n,
    ensures
        find_sub(h, n) is None,
    decreases h.len(),
{
    if h.len() >= n.len() {
        assert(h.subrange(0, 0 + n.len() as int) != n);
        assert(h.take(n.len() as int) == h.subrange(0, n.len() as int));
        let t = h.skip(1);
        assert forall|j: int| 0 <= j <= t.len() - n.len() implies #[trigger] t.subrange(
            j,
            j + n.len(),
        ) != n by {
            assert(t.subrange(j, j + n.len()) =~= h.subrange(j + 1, j + 1 + n.len()));
        }
        lemma_find_sub_none(t, n);
    }
}

/// Whether `n` occurs in `h` starting exactly at `i`.
fn match_at(h: &Vec<char>, n: &Vec<char>, i: usize) -> (r: bool)
    requires
        i + n.len() <= h.len(),
    ensures
        r == (h@.subrange(i as int, i as int + n@.len() as int) == n@),
{
    let mut j: usize = 0;
    while j < n.len()
        invariant
            j <= n.len(),
            i + n.len() <= h.len(),
            forall|t: int| 0 <= t < j ==> h@[i + t] == n@[t],
        decreases n.len() - j,
    {
        if h[i + j] != n[j] {
            proof {
                let sub = h@.subrange(i as int, i as int + n@.len() as int);
                assert(sub[j as int] == h@[i + j as int]);
            }
            return false;
        }
        j += 1;
    }
    proof {
        assert(h@.subrange(i as int, i as int + n@.len() as int) =~= n@);
    }
    true
}

/// The first occurrence of `n` in `h`, scanning left to right.
fn find_sub_exec(h: &Vec<char>, n: &Vec<char>) -> (r: Option<usize>)
    ensures
        match r {
            Some(i) => i + n@.len() <= h@.len() && find_sub(h@, n@) == Some(i as nat),
            None => find_sub(h@, n@) is None,
        },
{
    if n.len() == 0 {
        return Some(0);
    }
    if n.len() > h.len() {
        proof {
            lemma_find_sub_none(h@, n@);
        }
        return None;
    }
    let last = h.len() - n.len();
    let mut i: usize = 0;
    while i <= last
        invariant
            0 <= i <= last + 1,
            last == h.len() - n.len(),
            1 <= n.len() <= h.len(),
            forall|j: int| 0 <= j < i ==> #[trigger] h@.subrange(j, j + n@.len() as int) != n@,
        decreases last + 1 - i,
    {
        if match_at(h, n, i) {
            proof {
                lemma_find_sub_first(h@, n@, i as int);
            }
            return Some(i);
        }
        i += 1;
    }
    proof {
        lemma_find_sub_none(h@, n@);
    }
    None
}

/// Scan a process table, line by line, for the replay tool working inside a
/// per-app shader-cache directory, and extract the application identifier
/// from the first such line.
pub fn scan_process_table(text: &str) -> (r: Option<String>)
    ensures
        match r {
            Some(id) => scan_spec(text@) == Some(id@),
            None => scan_spec(text@) is None,
        },
{
    let v = crate::text::str_chars(text);
    let tool = crate::text::str_chars("fossilize_replay");
    let marker = crate::text::str_chars("steamapps/shadercache/");
    let mut pos: usize = 0;
    proof {
        assert(v@.skip(0) =~= v@);
    }
    loop
        invariant
            pos <= v.len(),
            v@ == text@,
            tool@ == tool_pattern(),
            marker@ == marker_pattern(),
            scan_spec(text@) == scan_lines(split_lines(v@.skip(pos as int))),
        decreases v.len() - pos,
    {
        let ghost s = v@.skip(pos as int);
        let e = scan_until(&v, pos, '\n');
        let ghost ll = prefix_len_until(s, '\n') as int;
        proof {
            assert(ll == e - pos);
        }
        // Copy the current line out, and a lowercased twin beside it.
        let mut line: Vec<char> = Vec::new();
        let mut lower_line: Vec<char> = Vec::new();
        proof {
            assert(v@.subrange(pos as int, pos as int) =~= Seq::<char>::empty());
            assert(lower_seq(v@.subrange(pos as int, pos as int)) =~= Seq::<char>::empty());
        }
        let mut i = pos;
        while i < e
            invariant
                pos <= i <= e <= v.len(),
                line@ == v@.subrange(pos as int, i as int),
                lower_line@ == lower_seq(v@.subrange(pos as int, i as int)),
            decreases e - i,
        {
            let c = v[i];
            line.push(c);
            lower_line.push(lower_exec(c));
            proof {
                assert(v@.subrange(pos as int, i as int).push(v@[i as int]) =~= v@.subrange(
                    pos as int,
                    i as int + 1,
                ));
                assert(lower_seq(v@.subrange(pos as int, i as int)).push(lower(v@[i as int]))
                    =~= lower_seq(v@.subrange(pos as int, i as int + 1)));
            }
            i += 1;
        }
        proof {
            assert(s.take(ll) =~= v@.subrange(pos as int, e as int));
            if e == v.len() {
                assert(s.take(ll) =~= s);
            }
        }
        let tool_found = find_sub_exec(&lower_line, &tool).is_some();
        let marker_hit = if tool_found {
            find_sub_exec(&line, &marker)
        } else {
            None
        };
        if let Some(k) = marker_hit {
            proof {
                assert(line_selected(line@));
            }
            // The identifier: from past the first marker to the next '/'.
            let start = k + marker.len();
            let seg_end = scan_until(&line, start, '/');
            let mut id_chars: Vec<char> = Vec::new();
            proof {
                assert(line@.subrange(start as int, start as int) =~= Seq::<char>::empty());
            }
            let mut j = start;
            while j < seg_end
                invariant
                    start <= j <= seg_end <= line.len(),
                    id_chars@ == line@.subrange(start as int, j as int),
                decreases seg_end - j,
            {
                id_chars.push(line[j]);
                proof {
                    assert(line@.subrange(start as int, j as int).push(line@[j as int]) =~= line@
                        .subrange(start as int, j as int + 1));
                }
                j += 1;
            }
            let id = crate::text::chars_to_string(&id_chars);
            proof {
                let rest = line@.skip(start as int);
                assert(rest =~= line@.subrange(start as int, line@.len() as int));
                assert forall|t: int| 0 <= t < seg_end - start implies rest[t] == line@[start
                    + t] by {}
                assert(rest.take(prefix_len_until(rest, '/') as int) =~= line@.subrange(
                    start as int,
                    seg_end as int,
                ));
                assert(id@ == extract_id(line@));
                // The first line of the remaining text is selected, so the
                // scan stops here with this identifier.
                if ll >= s.len() {
                    assert(split_lines(s) == seq![s]);
                    assert(split_lines(s)[0] == line@);
                } else {
                    assert(split_lines(s) == seq![s.take(ll)] + split_lines(s.skip(ll + 1)));
                    assert(split_lines(s)[0] == line@);
                }
                assert(split_lines(s).len() > 0);
                assert(scan_lines(split_lines(s)) == Some(extract_id(line@)));
            }
            return Some(id);
        }
        if e == v.len() {
            proof {
                assert(split_lines(s) == seq![s]);
                assert(split_lines(s)[0] == line@);
                assert(split_lines(s).skip(1) =~= Seq::<Seq<char>>::empty());
                assert(scan_lines(Seq::<Seq<char>>::empty()) is None);
                assert(scan_lines(split_lines(s)) is None);
            }
            return None;
        }
        proof {
            assert(split_lines(s) == seq![s.take(ll)] + split_lines(s.skip(ll + 1)));
            assert(split_lines(s)[0] == line@);
            assert(split_lines(s).skip(1) =~= split_lines(s.skip(ll + 1)));
            assert(s.skip(ll + 1) =~= v@.skip(e as int + 1));
            assert(scan_lines(split_lines(s)) == scan_lines(split_lines(v@.skip(e as int + 1))));
        }
        pos = e + 1;
    }
}

} // verus!
