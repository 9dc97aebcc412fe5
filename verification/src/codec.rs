use vstd::prelude::*;

use crate::catalog::{App, AppList, Apps};

verus! {

/// A decimal digit character.
pub open spec fn is_digit(c: char) -> bool {
    '0' as u32 <= c as u32 && c as u32 <= '9' as u32
}

/// The numeric value of a decimal digit character.
pub open spec fn digit_val(c: char) -> nat {
    (c as u32 - '0' as u32) as nat
}

/// The character for a decimal digit value below ten.
pub open spec fn digit_char(d: nat) -> char {
    if d == 0 {
        '0'
    } else if d == 1 {
        '1'
    } else if d == 2 {
        '2'
    } else if d == 3 {
        '3'
    } else if d == 4 {
        '4'
    } else if d == 5 {
        '5'
    } else if d == 6 {
        '6'
    } else if d == 7 {
        '7'
    } else if d == 8 {
        '8'
    } else {
        '9'
    }
}

/// The canonical decimal representation of a number: no sign, no leading
/// zeros (a single `'0'` for zero).
pub open spec fn dec_rep(n: nat) -> Seq<char>
    decreases n,
{
    if n < 10 {
        seq![digit_char(n)]
    } else {
        dec_rep(n / 10).push(digit_char(n % 10))
    }
}

/// The number a sequence of decimal digit characters denotes.
pub open spec fn dec_val(ds: Seq<char>) -> nat
    decreases ds.len(),
{
    if ds.len() == 0 {
        0
    } else {
        dec_val(ds.drop_last()) * 10 + digit_val(ds.last())
    }
}

proof fn lemma_digit_char_val(d: nat)
    requires
        d < 10,
    ensures
        is_digit(digit_char(d)),
        digit_val(digit_char(d)) == d,
{
}

/// Every decimal representation is a non-empty string of digits.
proof fn lemma_dec_rep_digits(n: nat)
    ensures
        dec_rep(n).len() >= 1,
        forall|i: int| 0 <= i < dec_rep(n).len() ==> is_digit(#[trigger] dec_rep(n)[i]),
    decreases n,
{
    if n < 10 {
        lemma_digit_char_val(n);
    } else {
        lemma_dec_rep_digits(n / 10);
        lemma_digit_char_val(n % 10);
        assert forall|i: int| 0 <= i < dec_rep(n).len() implies is_digit(
            #[trigger] dec_rep(n)[i],
        ) by {
            if i < dec_rep(n / 10).len() {
                assert(dec_rep(n)[i] == dec_rep(n / 10)[i]);
            } else {
                assert(dec_rep(n)[i] == digit_char(n % 10));
            }
        }
    }
}

/// Reading a decimal representation back gives the number it was made from.
proof fn lemma_dec_val_dec_rep(n: nat)
    ensures
        dec_val(dec_rep(n)) == n,
    decreases n,
{
    if n < 10 {
        lemma_digit_char_val(n);
        assert(dec_rep(n) == seq![digit_char(n)]);
        assert(dec_rep(n).last() == digit_char(n));
        assert(dec_rep(n).drop_last() =~= Seq::<char>::empty());
        assert(dec_val(Seq::<char>::empty()) == 0);
        assert(dec_val(dec_rep(n)) == dec_val(dec_rep(n).drop_last()) * 10 + digit_val(
            dec_rep(n).last(),
        ));
    } else {
        lemma_dec_val_dec_rep(n / 10);
        lemma_digit_char_val(n % 10);
        let head = dec_rep(n / 10);
        let d = digit_char(n % 10);
        assert(dec_rep(n) == head.push(d));
        assert(head.push(d).last() == d);
        assert(head.push(d).drop_last() =~= head);
        assert(dec_val(dec_rep(n)) == dec_val(head) * 10 + digit_val(d));
        assert(n / 10 * 10 + n % 10 == n) by (nonlinear_arith);
    }
}

/// The value of a digit string only grows as digits are appended.
proof fn lemma_dec_val_take_le(ds: Seq<char>, j: int)
    requires
        0 <= j <= ds.len(),
    ensures
        dec_val(ds.take(j)) <= dec_val(ds),
    decreases ds.len() - j,
{
    if j < ds.len() {
        lemma_dec_val_take_le(ds, j + 1);
        let t = ds.take(j + 1);
        assert(t.drop_last() =~= ds.take(j));
        assert(dec_val(ds.take(j)) <= dec_val(t));
    } else {
        assert(ds.take(j) =~= ds);
    }
}

/// One catalog entry in the snapshot text: the identifier, the name's length
/// in characters, and the name itself, tab-separated and ended by a newline.
/// The explicit length lets a name contain tabs and newlines verbatim.
pub open spec fn encode_entry(e: (u64, Seq<char>)) -> Seq<char> {
    dec_rep(e.0 as nat) + seq!['\t'] + dec_rep(e.1.len()) + seq!['\t'] + e.1 + seq!['\n']
}

/// The whole snapshot text: the entries one after another, in catalog order.
pub open spec fn encode_entries(cat: Seq<(u64, Seq<char>)>) -> Seq<char>
    decreases cat.len(),
{
    if cat.len() == 0 {
        Seq::empty()
    } else {
        encode_entry(cat[0]) + encode_entries(cat.skip(1))
    }
}

/// The length of the longest prefix made of decimal digits.
pub open spec fn digits_len(s: Seq<char>) -> nat
    decreases s.len(),
{
    if s.len() > 0 && is_digit(s[0]) {
        (1 + digits_len(s.skip(1))) as nat
    } else {
        0
    }
}

/// A digit prefix of length `j`, followed by a non-digit or the end, is the
/// longest one.
proof fn lemma_digits_len_unique(s: Seq<char>, j: int)
    requires
        0 <= j <= s.len(),
        forall|i: int| 0 <= i < j ==> is_digit(#[trigger] s[i]),
        j == s.len() || !is_digit(s[j]),
    ensures
        digits_len(s) == j,
    decreases s.len(),
{
    if s.len() > 0 && is_digit(s[0]) {
        let t = s.skip(1);
        assert forall|i: int| 0 <= i < j - 1 implies is_digit(#[trigger] t[i]) by {
            assert(t[i] == s[i + 1]);
        }
        if j - 1 < t.len() {
            assert(t[j - 1] == s[j]);
        }
        lemma_digits_len_unique(t, j - 1);
    }
}

/// One parsed entry and the remaining input, when the input starts with a
/// well-formed entry line; `None` otherwise.
pub open spec fn parse_entry(s: Seq<char>) -> Option<((u64, Seq<char>), Seq<char>)> {
    let k1 = digits_len(s) as int;
    if k1 == 0 || k1 >= s.len() || s[k1] != '\t' || dec_val(s.take(k1)) > u64::MAX {
        None
    } else {
        let id = dec_val(s.take(k1)) as u64;
        let s2 = s.skip(k1 + 1);
        let k2 = digits_len(s2) as int;
        if k2 == 0 || k2 >= s2.len() || s2[k2] != '\t' {
            None
        } else {
            let nlen = dec_val(s2.take(k2)) as int;
            let s3 = s2.skip(k2 + 1);
            if s3.len() < nlen + 1 || s3[nlen] != '\n' {
                None
            } else {
                Some(((id, s3.take(nlen)), s3.skip(nlen + 1)))
            }
        }
    }
}

/// The catalog a snapshot text denotes: every entry parsed in turn, with
/// nothing left over; `None` as soon as the text deviates from the format.
pub open spec fn parse_entries(s: Seq<char>) -> Option<Seq<(u64, Seq<char>)>>
    decreases s.len(),
{
    if s.len() == 0 {
        Some(Seq::empty())
    } else {
        match parse_entry(s) {
            None => None,
            Some((e, rest)) => {
                if rest.len() < s.len() {
                    match parse_entries(rest) {
                        None => None,
                        Some(tail) => Some(seq![e] + tail),
                    }
                } else {
                    None
                }
            },
        }
    }
}

/// Parsing recovers an encoded entry exactly, leaving the rest untouched.
proof fn lemma_parse_encode_entry(e: (u64, Seq<char>), rest: Seq<char>)
    ensures
        parse_entry(encode_entry(e) + rest) == Some((e, rest)),
        encode_entry(e).len() >= 5,
{
    let id_ds = dec_rep(e.0 as nat);
    let len_ds = dec_rep(e.1.len());
    let name = e.1;
    let s = encode_entry(e) + rest;
    lemma_dec_rep_digits(e.0 as nat);
    lemma_dec_rep_digits(name.len());
    lemma_dec_val_dec_rep(e.0 as nat);
    lemma_dec_val_dec_rep(name.len());

    let k1 = id_ds.len() as int;
    assert(s =~= id_ds + (seq!['\t'] + len_ds + seq!['\t'] + name + seq!['\n'] + rest));
    assert forall|i: int| 0 <= i < k1 implies is_digit(#[trigger] s[i]) by {
        assert(s[i] == id_ds[i]);
    }
    assert(s[k1] == '\t');
    lemma_digits_len_unique(s, k1);
    assert(s.take(k1) =~= id_ds);

    let s2 = s.skip(k1 + 1);
    assert(s2 =~= len_ds + (seq!['\t'] + name + seq!['\n'] + rest));
    let k2 = len_ds.len() as int;
    assert forall|i: int| 0 <= i < k2 implies is_digit(#[trigger] s2[i]) by {
        assert(s2[i] == len_ds[i]);
    }
    assert(s2[k2] == '\t');
    lemma_digits_len_unique(s2, k2);
    assert(s2.take(k2) =~= len_ds);

    let s3 = s2.skip(k2 + 1);
    assert(s3 =~= name + seq!['\n'] + rest);
    let nlen = name.len() as int;
    assert(s3[nlen] == '\n');
    assert(s3.take(nlen) =~= name);
    assert(s3.skip(nlen + 1) =~= rest);
}

/// Round-trip law: parsing the encoding of any catalog yields exactly that
/// catalog's identifier/name pairs, in order.
pub proof fn lemma_parse_encode_roundtrip(cat: Seq<(u64, Seq<char>)>)
    ensures
        parse_entries(encode_entries(cat)) == Some(cat),
    decreases cat.len(),
{
    if cat.len() == 0 {
        assert(cat =~= Seq::<(u64, Seq<char>)>::empty());
    } else {
        let e = cat[0];
        let rest = encode_entries(cat.skip(1));
        let s = encode_entries(cat);
        assert(s == encode_entry(e) + rest);
        lemma_parse_encode_entry(e, rest);
        assert(rest.len() < s.len());
        lemma_parse_encode_roundtrip(cat.skip(1));
        assert(seq![e] + cat.skip(1) =~= cat);
    }
}

/// Appending an entry to a catalog appends its line to the encoding.
proof fn lemma_encode_entries_push(cat: Seq<(u64, Seq<char>)>, e: (u64, Seq<char>))
    ensures
        encode_entries(cat.push(e)) == encode_entries(cat) + encode_entry(e),
    decreases cat.len(),
{
    if cat.len() == 0 {
        assert(cat.push(e).skip(1) =~= Seq::<(u64, Seq<char>)>::empty());
        assert(cat.push(e)[0] == e);
        assert(encode_entries(cat.push(e)) == encode_entry(e) + encode_entries(
            cat.push(e).skip(1),
        ));
        assert(encode_entries(cat.push(e).skip(1)) == Seq::<char>::empty());
        assert(encode_entries(cat) == Seq::<char>::empty());
        assert(encode_entry(e) + Seq::<char>::empty() =~= Seq::<char>::empty() + encode_entry(e));
    } else {
        assert(cat.push(e).skip(1) =~= cat.skip(1).push(e));
        lemma_encode_entries_push(cat.skip(1), e);
        assert(cat.push(e)[0] == cat[0]);
        assert(encode_entries(cat.push(e)) == encode_entry(cat[0]) + encode_entries(
            cat.skip(1).push(e),
        ));
        assert(encode_entries(cat) == encode_entry(cat[0]) + encode_entries(cat.skip(1)));
        assert(encode_entry(cat[0]) + (encode_entries(cat.skip(1)) + encode_entry(e)) =~= (
        encode_entry(cat[0]) + encode_entries(cat.skip(1))) + encode_entry(e));
    }
}

/// The character for one decimal digit of `d`.
fn digit_char_exec(d: u64) -> (c: char)
    requires
        d < 10,
    ensures
        c == digit_char(d as nat),
{
    match d {
        0 => '0',
        1 => '1',
        2 => '2',
        3 => '3',
        4 => '4',
        5 => '5',
        6 => '6',
        7 => '7',
        8 => '8',
        _ => '9',
    }
}

/// Append the canonical decimal representation of `n`.
fn push_dec_u64(out: &mut Vec<char>, n: u64)
    ensures
        final(out)@ == old(out)@ + dec_rep(n as nat),
    decreases n,
{
    if n < 10 {
        let c = digit_char_exec(n);
        out.push(c);
        assert(out@ =~= old(out)@ + dec_rep(n as nat));
    } else {
        push_dec_u64(out, n / 10);
        let c = digit_char_exec(n % 10);
        out.push(c);
        assert(out@ =~= old(out)@ + dec_rep(n as nat));
    }
}

/// Append one entry's line.
fn push_entry(out: &mut Vec<char>, app: &App)
    ensures
        final(out)@ == old(out)@ + encode_entry(app@),
{
    push_dec_u64(out, app.appid);
    out.push('\t');
    let nlen = app.name.as_str().unicode_len();
    push_dec_u64(out, nlen as u64);
    out.push('\t');
    let ghost mid = out@;
    let mut i: usize = 0;
    while i < nlen
        invariant
            nlen == app.name@.len(),
            i <= nlen,
            out@ == mid + app.name@.take(i as int),
        decreases nlen - i,
    {
        let c = app.name.as_str().get_char(i);
        out.push(c);
        proof {
            assert(mid + app.name@.take(i as int) + seq![app.name@[i as int]] =~= mid
                + app.name@.take(i as int + 1));
        }
        i += 1;
    }
    out.push('\n');
    proof {
        assert(app.name@.take(nlen as int) =~= app.name@);
        assert(out@ =~= old(out)@ + encode_entry(app@));
    }
}

/// Serialize a catalog into its snapshot text, one line per entry.
pub fn encode_catalog(cat: &AppList) -> (r: String)
    ensures
        r@ == encode_entries(cat@),
{
    let mut out: Vec<char> = Vec::new();
    let n = cat.applist.apps.len();
    proof {
        assert(cat@.take(0) =~= Seq::<(u64, Seq<char>)>::empty());
    }
    let mut i: usize = 0;
    while i < n
        invariant
            n == cat.applist.apps.len(),
            n == cat@.len(),
            i <= n,
            out@ == encode_entries(cat@.take(i as int)),
        decreases n - i,
    {
        push_entry(&mut out, &cat.applist.apps[i]);
        proof {
            lemma_encode_entries_push(cat@.take(i as int), cat@[i as int]);
            assert(cat@.take(i as int).push(cat@[i as int]) =~= cat@.take(i as int + 1));
        }
        i += 1;
    }
    proof {
        assert(cat@.take(n as int) =~= cat@);
    }
    crate::text::chars_to_string(&out)
}

/// Decimal digit test.
fn is_digit_exec(c: char) -> (r: bool)
    ensures
        r == is_digit(c),
{
    let u = c as u32;
    ('0' as u32) <= u && u <= ('9' as u32)
}

/// The first index at or past `start` holding no digit.
fn scan_digits(v: &Vec<char>, start: usize) -> (end: usize)
    requires
        start <= v.len(),
    ensures
        start <= end <= v.len(),
        digits_len(v@.skip(start as int)) == end - start,
        forall|j: int| start <= j < end ==> is_digit(#[trigger] v@[j]),
{
    let mut i = start;
    while i < v.len() && is_digit_exec(v[i])
        invariant
            start <= i <= v.len(),
            forall|j: int| start <= j < i ==> is_digit(#[trigger] v@[j]),
        decreases v.len() - i,
    {
        i += 1;
    }
    proof {
        let s = v@.skip(start as int);
        assert forall|j: int| 0 <= j < i - start implies is_digit(#[trigger] s[j]) by {
            assert(s[j] == v@[start + j]);
        }
        if i < v.len() {
            assert(s[i - start] == v@[i as int]);
        }
        lemma_digits_len_unique(s, i - start);
    }
    i
}

/// The number the digits `v[start..end]` denote, unless it exceeds `u64`.
fn dec_from(v: &Vec<char>, start: usize, end: usize) -> (r: Option<u64>)
    requires
        start <= end <= v.len(),
        forall|j: int| start <= j < end ==> is_digit(#[trigger] v@[j]),
    ensures
        match r {
            Some(x) => x as nat == dec_val(v@.subrange(start as int, end as int)),
            None => dec_val(v@.subrange(start as int, end as int)) > u64::MAX,
        },
{
    let ghost ds = v@.subrange(start as int, end as int);
    let mut acc: u64 = 0;
    let mut i = start;
    proof {
        assert(v@.subrange(start as int, start as int) =~= Seq::<char>::empty());
    }
    while i < end
        invariant
            start <= i <= end <= v.len(),
            forall|j: int| start <= j < end ==> is_digit(#[trigger] v@[j]),
            ds == v@.subrange(start as int, end as int),
            acc as nat == dec_val(v@.subrange(start as int, i as int)),
        decreases end - i,
    {
        let c = v[i];
        let d = ((c as u32) - ('0' as u32)) as u64;
        proof {
            assert(is_digit(v@[i as int]));
            assert(d as nat == digit_val(v@[i as int]));
            let cur = v@.subrange(start as int, i as int + 1);
            assert(cur.drop_last() =~= v@.subrange(start as int, i as int));
            assert(cur.last() == v@[i as int]);
            assert(dec_val(cur) == (acc as nat) * 10 + digit_val(v@[i as int]));
        }
        let next = match acc.checked_mul(10) {
            Some(m) => m.checked_add(d),
            None => None,
        };
        match next {
            Some(x) => {
                acc = x;
            },
            None => {
                proof {
                    assert(dec_val(v@.subrange(start as int, i as int + 1)) > u64::MAX);
                    assert(ds.take(i as int + 1 - start) =~= v@.subrange(
                        start as int,
                        i as int + 1,
                    ));
                    lemma_dec_val_take_le(ds, i as int + 1 - start);
                }
                return None;
            },
        }
        i += 1;
    }
    proof {
        assert(v@.subrange(start as int, end as int) =~= ds);
    }
    Some(acc)
}

/// Parse the entry line starting at `pos`; a parsed entry comes with the
/// position just past its terminating newline.
fn parse_entry_at(v: &Vec<char>, pos: usize) -> (r: Option<(App, usize)>)
    requires
        pos <= v.len(),
    ensures
        match r {
            Some(p) => pos < p.1 <= v.len() && parse_entry(v@.skip(pos as int)) == Some(
                (p.0@, v@.skip(p.1 as int)),
            ),
            None => parse_entry(v@.skip(pos as int)) is None,
        },
{
    let ghost s = v@.skip(pos as int);
    let e1 = scan_digits(v, pos);
    let ghost k1 = digits_len(s) as int;
    proof {
        assert(k1 == e1 - pos);
    }
    if e1 == pos || e1 == v.len() {
        return None;
    }
    proof {
        assert(s[k1] == v@[e1 as int]);
    }
    if v[e1] != '\t' {
        return None;
    }
    proof {
        assert(s.take(k1) =~= v@.subrange(pos as int, e1 as int));
    }
    let id = match dec_from(v, pos, e1) {
        Some(x) => x,
        None => {
            return None;
        },
    };
    let pos2 = e1 + 1;
    let ghost s2 = s.skip(k1 + 1);
    proof {
        assert(s2 =~= v@.skip(pos2 as int));
    }
    let e2 = scan_digits(v, pos2);
    let ghost k2 = digits_len(s2) as int;
    proof {
        assert(k2 == e2 - pos2);
    }
    if e2 == pos2 || e2 == v.len() {
        return None;
    }
    proof {
        assert(s2[k2] == v@[e2 as int]);
    }
    if v[e2] != '\t' {
        return None;
    }
    proof {
        assert(s2.take(k2) =~= v@.subrange(pos2 as int, e2 as int));
    }
    let pos3 = e2 + 1;
    let ghost s3 = s2.skip(k2 + 1);
    proof {
        assert(s3 =~= v@.skip(pos3 as int));
    }
    let avail = v.len() - pos3;
    let nlen_u = match dec_from(v, pos2, e2) {
        Some(x) => x,
        None => {
            proof {
                assert(s3.len() <= usize::MAX);
                assert(usize::MAX <= u64::MAX);
            }
            return None;
        },
    };
    if (avail as u64) <= nlen_u {
        return None;
    }
    let nlen = nlen_u as usize;
    let mut name_chars: Vec<char> = Vec::new();
    proof {
        assert(v@.subrange(pos3 as int, pos3 as int) =~= Seq::<char>::empty());
    }
    let mut i: usize = 0;
    while i < nlen
        invariant
            i <= nlen,
            pos3 + nlen < v.len(),
            name_chars@ == v@.subrange(pos3 as int, pos3 as int + i),
        decreases nlen - i,
    {
        name_chars.push(v[pos3 + i]);
        proof {
            assert(v@.subrange(pos3 as int, pos3 as int + i).push(v@[pos3 as int + i]) =~= v@
                .subrange(pos3 as int, pos3 as int + i + 1));
        }
        i += 1;
    }
    proof {
        assert(s3[nlen_u as int] == v@[pos3 as int + nlen as int]);
    }
    if v[pos3 + nlen] != '\n' {
        return None;
    }
    let name = crate::text::chars_to_string(&name_chars);
    let p = pos3 + nlen + 1;
    proof {
        assert(s3.take(nlen_u as int) =~= v@.subrange(pos3 as int, pos3 as int + nlen as int));
        assert(s3.skip(nlen_u as int + 1) =~= v@.skip(p as int));
    }
    Some((App { appid: id, name }, p))
}

/// Deserialize a snapshot text back into a catalog; `None` when the text does
/// not follow the snapshot format.
pub fn parse_catalog(text: &str) -> (r: Option<AppList>)
    ensures
        match r {
            Some(c) => parse_entries(text@) == Some(c@),
            None => parse_entries(text@) is None,
        },
{
    let v = crate::text::str_chars(text);
    let mut apps: Vec<App> = Vec::new();
    let mut pos: usize = 0;
    proof {
        assert(v@.skip(0) =~= v@);
        if parse_entries(v@) is Some {
            let t = parse_entries(v@)->Some_0;
            assert(crate::catalog::apps_view(apps@) + t =~= t);
        }
    }
    while pos < v.len()
        invariant
            pos <= v.len(),
            v@ == text@,
            parse_entries(v@) == (match parse_entries(v@.skip(pos as int)) {
                Some(t) => Some(crate::catalog::apps_view(apps@) + t),
                None => None::<Seq<(u64, Seq<char>)>>,
            }),
        decreases v.len() - pos,
    {
        match parse_entry_at(&v, pos) {
            None => {
                proof {
                    assert(v@.skip(pos as int).len() > 0);
                    assert(parse_entries(v@.skip(pos as int)) is None);
                }
                return None;
            },
            Some((app, p)) => {
                proof {
                    let rest = v@.skip(p as int);
                    let cur = v@.skip(pos as int);
                    assert(cur.len() > 0);
                    assert(rest.len() < cur.len());
                    let av = crate::catalog::apps_view(apps@);
                    let av2 = crate::catalog::apps_view(apps@.push(app));
                    assert(av2 =~= av.push(app@));
                    if parse_entries(rest) is Some {
                        let t = parse_entries(rest)->Some_0;
                        assert(parse_entries(cur) == Some(seq![app@] + t));
                        assert(av + (seq![app@] + t) =~= av.push(app@) + t);
                    } else {
                        assert(parse_entries(cur) is None);
                    }
                }
                apps.push(app);
                pos = p;
            },
        }
    }
    proof {
        assert(v@.skip(pos as int) =~= Seq::<char>::empty());
        assert(parse_entries(v@.skip(pos as int)) == Some(Seq::<(u64, Seq<char>)>::empty()));
        assert(crate::catalog::apps_view(apps@) + Seq::<(u64, Seq<char>)>::empty()
            =~= crate::catalog::apps_view(apps@));
    }
    let result = AppList { applist: Apps { apps } };
    proof {
        assert(result@ =~= crate::catalog::apps_view(result.applist.apps@));
    }
    Some(result)
}

} // verus!
