//! Character-level text utilities shared by the on-disk formats and the
//! prompt/rendering code: truncation, field escaping, and separator splitting.

use vstd::prelude::*;

verus! {

use vstd::string::StrSliceExecFns;
use vstd::string::StringExecFns;

/// The width of one character in UTF-8.
pub open spec fn char_utf8_len(c: char) -> int {
    if (c as u32) < 0x80 {
        1
    } else if (c as u32) < 0x800 {
        2
    } else if (c as u32) < 0x10000 {
        3
    } else {
        4
    }
}

/// The UTF-8 byte length of a text.
pub open spec fn bytes_len(s: Seq<char>) -> int
    decreases s.len(),
{
    if s.len() == 0 {
        0
    } else {
        char_utf8_len(s[0]) + bytes_len(s.drop_first())
    }
}

pub proof fn lemma_bytes_len_nonneg(s: Seq<char>)
    ensures
        bytes_len(s) >= 0,
    decreases s.len(),
{
    if s.len() > 0 {
        lemma_bytes_len_nonneg(s.drop_first());
    }
}

/// Byte length distributes over concatenation.
pub proof fn lemma_bytes_len_concat(a: Seq<char>, b: Seq<char>)
    ensures
        bytes_len(a + b) == bytes_len(a) + bytes_len(b),
    decreases a.len(),
{
    if a.len() == 0 {
        assert(a + b =~= b);
    } else {
        lemma_bytes_len_concat(a.drop_first(), b);
        assert((a + b).drop_first() =~= a.drop_first() + b);
        assert((a + b)[0] == a[0]);
    }
}

/// One extra character adds its own width.
pub proof fn lemma_bytes_len_push(s: Seq<char>, c: char)
    ensures
        bytes_len(s.push(c)) == bytes_len(s) + char_utf8_len(c),
{
    assert(s.push(c) =~= s + seq![c]);
    lemma_bytes_len_concat(s, seq![c]);
    assert(seq![c].drop_first() =~= Seq::<char>::empty());
    assert(bytes_len(Seq::<char>::empty()) == 0);
    assert(seq![c][0] == c);
    assert(bytes_len(seq![c]) == char_utf8_len(c));
}

/// A prefix is never longer, in bytes, than the whole.
pub proof fn lemma_bytes_len_prefix(s: Seq<char>, i: int)
    requires
        0 <= i <= s.len(),
    ensures
        bytes_len(s.subrange(0, i)) <= bytes_len(s),
{
    assert(s =~= s.subrange(0, i) + s.subrange(i, s.len() as int));
    lemma_bytes_len_concat(s.subrange(0, i), s.subrange(i, s.len() as int));
    lemma_bytes_len_nonneg(s.subrange(i, s.len() as int));
}

/// The byte length matches the UTF-8 encoding the standard library reports:
/// `str::len` counts exactly these widths.
pub proof fn lemma_bytes_len_encode(s: Seq<char>)
    ensures
        vstd::utf8::encode_utf8(s).len() == bytes_len(s),
    decreases s.len(),
{
    if s.len() > 0 {
        lemma_bytes_len_encode(s.drop_first());
        vstd::utf8::char_is_scalar(s[0]);
        let u = s[0] as u32;
        assert(vstd::utf8::is_scalar(u));
        if u < 0x80 {
            assert(vstd::utf8::encode_scalar(u).len() == 1);
        } else if u < 0x800 {
            assert(vstd::utf8::encode_scalar(u).len() == 2);
        } else if u < 0x10000 {
            assert(vstd::utf8::encode_scalar(u).len() == 3);
        } else {
            assert(vstd::utf8::encode_scalar(u).len() == 4);
        }
    }
}

/// The longest prefix of `s` that fits a budget of `max` bytes: the cut
/// steps back to the last character boundary within the budget.
pub open spec fn take_bytes(s: Seq<char>, max: int) -> Seq<char>
    decreases s.len(),
{
    if bytes_len(s) <= max {
        s
    } else if s.len() == 0 {
        s
    } else {
        take_bytes(s.drop_last(), max)
    }
}

/// `take_bytes` is exactly the prefix at the greatest in-budget cut.
pub proof fn lemma_take_bytes_at(s: Seq<char>, max: int, i: int)
    requires
        0 <= i <= s.len(),
        bytes_len(s.subrange(0, i)) <= max,
        i < s.len() ==> bytes_len(s.subrange(0, i + 1)) > max,
    ensures
        take_bytes(s, max) == s.subrange(0, i),
    decreases s.len(),
{
    if bytes_len(s) <= max {
        if i < s.len() {
            lemma_bytes_len_prefix(s, i + 1);
        }
        assert(i == s.len());
        assert(s.subrange(0, s.len() as int) =~= s);
    } else {
        assert(s.len() > 0) by {
            if s.len() == 0 {
                assert(s.subrange(0, i) =~= s);
            }
        }
        assert(i < s.len()) by {
            if i == s.len() {
                assert(s.subrange(0, i) =~= s);
            }
        }
        let d = s.drop_last();
        assert(d.subrange(0, i) =~= s.subrange(0, i));
        if i < d.len() {
            assert(d.subrange(0, i + 1) =~= s.subrange(0, i + 1));
        } else {
            assert(i == d.len());
            assert(d.subrange(0, i) =~= d);
            assert(s.subrange(0, i + 1) =~= s);
        }
        lemma_take_bytes_at(d, max, i);
        assert(take_bytes(s, max) == take_bytes(d, max));
        assert(s.subrange(0, i) =~= d.subrange(0, i));
    }
}

/// The kept prefix fits the budget, and something is dropped exactly when
/// the whole text does not fit.
pub proof fn lemma_take_bytes_props(s: Seq<char>, max: int)
    requires
        max >= 0,
    ensures
        take_bytes(s, max).len() <= s.len(),
        bytes_len(s) <= max ==> take_bytes(s, max) == s,
        bytes_len(s) > max ==> take_bytes(s, max).len() < s.len(),
    decreases s.len(),
{
    if bytes_len(s) <= max {
    } else {
        assert(s.len() > 0) by {
            if s.len() == 0 {
                lemma_bytes_len_nonneg(s);
            }
        }
        lemma_take_bytes_props(s.drop_last(), max);
    }
}

/// The first `max` bytes' worth of `s`, cut at a character boundary, or all
/// of `s` when it fits.
pub open spec fn spec_truncate(s: Seq<char>, max: int) -> Seq<char> {
    take_bytes(s, max)
}

fn char_width(c: char) -> (r: usize)
    ensures
        r as int == char_utf8_len(c),
{
    let u = c as u32;
    if u < 0x80 {
        1
    } else if u < 0x800 {
        2
    } else if u < 0x10000 {
        3
    } else {
        4
    }
}

/// Cap `s` at a budget of `max` bytes, cutting at a character boundary.
pub fn truncate<'a>(s: &'a str, max: usize) -> (r: &'a str)
    ensures
        r@ == spec_truncate(s@, max as int),
{
    let n = s.unicode_len();
    let mut i: usize = 0;
    let mut acc: usize = 0;
    proof {
        assert(s@.subrange(0, 0) =~= Seq::<char>::empty());
    }
    while i < n && char_width(s.get_char(i)) <= max - acc
        invariant
            i <= n,
            n == s@.len(),
            acc as int == bytes_len(s@.subrange(0, i as int)),
            acc <= max,
        decreases n - i,
    {
        let w = char_width(s.get_char(i));
        proof {
            lemma_bytes_len_push(s@.subrange(0, i as int), s@[i as int]);
            assert(s@.subrange(0, i as int).push(s@[i as int]) =~= s@.subrange(0, i as int + 1));
        }
        acc = acc + w;
        i = i + 1;
    }
    proof {
        if i < n {
            lemma_bytes_len_push(s@.subrange(0, i as int), s@[i as int]);
            assert(s@.subrange(0, i as int).push(s@[i as int]) =~= s@.subrange(0, i as int + 1));
        }
        lemma_take_bytes_at(s@, max as int, i as int);
    }
    s.substring_char(0, i)
}

/// `s` capped at a budget of `max` bytes, with a trailing ellipsis when
/// capping dropped anything; the cut falls on a character boundary.
pub open spec fn spec_truncate_string(s: Seq<char>, max: int) -> Seq<char> {
    if bytes_len(s) <= max {
        s
    } else {
        take_bytes(s, max) + "..."@
    }
}

/// Cap `s` at a budget of `max` bytes for display, marking elision with
/// `...`.
pub fn truncate_string(s: &str, max: usize) -> (r: String)
    ensures
        r@ == spec_truncate_string(s@, max as int),
{
    let n = s.unicode_len();
    let cut = truncate(s, max);
    proof {
        lemma_take_bytes_props(s@, max as int);
    }
    if cut.unicode_len() == n {
        s.to_owned()
    } else {
        let mut out = cut.to_owned();
        out.append("...");
        out
    }
}

/// Relies on String::push: appends exactly one character at the end.
#[verifier::external_body]
pub fn push_char(s: &mut String, c: char)
    ensures
        final(s)@ == old(s)@.push(c),
{
    s.push(c);
}

/// How one character is written inside a single-line field: backslash,
/// newline, tab and carriage return take two-character escapes, everything
/// else stands for itself.
pub open spec fn esc_char(c: char) -> Seq<char> {
    if c == '\\' {
        seq!['\\', '\\']
    } else if c == '\n' {
        seq!['\\', 'n']
    } else if c == '\t' {
        seq!['\\', 't']
    } else if c == '\r' {
        seq!['\\', 'r']
    } else {
        seq![c]
    }
}

/// The escaped form of a whole field.
pub open spec fn esc(s: Seq<char>) -> Seq<char>
    decreases s.len(),
{
    if s.len() == 0 {
        Seq::empty()
    } else {
        esc_char(s[0]) + esc(s.subrange(1, s.len() as int))
    }
}

/// Escaping distributes over concatenation.
pub proof fn lemma_esc_append(a: Seq<char>, b: Seq<char>)
    ensures
        esc(a + b) == esc(a) + esc(b),
    decreases a.len(),
{
    if a.len() == 0 {
        assert(a + b =~= b);
        assert(esc(a) + esc(b) =~= esc(b));
    } else {
        let rest = a.subrange(1, a.len() as int);
        lemma_esc_append(rest, b);
        assert((a + b).subrange(1, (a + b).len() as int) =~= rest + b);
        assert(esc_char(a[0]) + (esc(rest) + esc(b)) =~= (esc_char(a[0]) + esc(rest)) + esc(b));
        assert((a + b)[0] == a[0]);
    }
}

/// One extra character extends the escaped form by that character's escape.
pub proof fn lemma_esc_push(s: Seq<char>, c: char)
    ensures
        esc(s.push(c)) == esc(s) + esc_char(c),
{
    assert(s.push(c) =~= s + seq![c]);
    lemma_esc_append(s, seq![c]);
    assert(seq![c].subrange(1, 1) =~= Seq::<char>::empty());
    assert(esc(Seq::<char>::empty()) == Seq::<char>::empty());
    assert(esc_char(c) + Seq::<char>::empty() =~= esc_char(c));
    assert(seq![c][0] == c);
    assert(esc(seq![c]) =~= esc_char(c));
}

/// An escaped field never contains a raw separator or line break.
pub proof fn lemma_esc_clean(s: Seq<char>)
    ensures
        forall|i: int| 0 <= i < esc(s).len() ==> esc(s)[i] != '\n' && esc(s)[i] != '\t'
            && esc(s)[i] != '\r',
    decreases s.len(),
{
    if s.len() > 0 {
        let rest = s.subrange(1, s.len() as int);
        lemma_esc_clean(rest);
        assert(esc(s) == esc_char(s[0]) + esc(rest));
        assert forall|i: int| 0 <= i < esc(s).len() implies esc(s)[i] != '\n' && esc(s)[i] != '\t'
            && esc(s)[i] != '\r' by {
            if i < esc_char(s[0]).len() {
                assert(esc(s)[i] == esc_char(s[0])[i]);
            } else {
                assert(esc(s)[i] == esc(rest)[i - esc_char(s[0]).len()]);
            }
        }
    }
}

/// The inverse reading of an escaped field: `None` when the text is not a
/// well-formed escaping (a dangling backslash or an unknown escape).
pub open spec fn unesc(s: Seq<char>) -> Option<Seq<char>>
    decreases s.len(),
{
    if s.len() == 0 {
        Some(Seq::empty())
    } else if s[0] == '\\' {
        if s.len() == 1 {
            None
        } else {
            let c = if s[1] == '\\' {
                Some('\\')
            } else if s[1] == 'n' {
                Some('\n')
            } else if s[1] == 't' {
                Some('\t')
            } else if s[1] == 'r' {
                Some('\r')
            } else {
                None
            };
            match c {
                None => None,
                Some(ch) => match unesc(s.subrange(2, s.len() as int)) {
                    None => None,
                    Some(t) => Some(seq![ch] + t),
                },
            }
        }
    } else {
        match unesc(s.subrange(1, s.len() as int)) {
            None => None,
            Some(t) => Some(seq![s[0]] + t),
        }
    }
}

/// Escaping then unescaping gives the field back.
pub proof fn lemma_unesc_esc(s: Seq<char>)
    ensures
        unesc(esc(s)) == Some(s),
    decreases s.len(),
{
    if s.len() == 0 {
    } else {
        let rest = s.subrange(1, s.len() as int);
        lemma_unesc_esc(rest);
        let e = esc(s);
        assert(e =~= esc_char(s[0]) + esc(rest));
        if s[0] == '\\' || s[0] == '\n' || s[0] == '\t' || s[0] == '\r' {
            assert(e.subrange(2, e.len() as int) =~= esc(rest));
            assert(seq![s[0]] + rest =~= s);
        } else {
            assert(e[0] == s[0]);
            assert(e.subrange(1, e.len() as int) =~= esc(rest));
            assert(seq![s[0]] + rest =~= s);
        }
    }
}

/// Write `s` as a one-line field.
pub fn escape_field(s: &str) -> (r: String)
    ensures
        r@ == esc(s@),
{
    let n = s.unicode_len();
    let mut out = String::new();
    let mut i: usize = 0;
    while i < n
        invariant
            i <= n,
            n == s@.len(),
            out@ == esc(s@.subrange(0, i as int)),
        decreases n - i,
    {
        let c = s.get_char(i);
        if c == '\\' {
            push_char(&mut out, '\\');
            push_char(&mut out, '\\');
        } else if c == '\n' {
            push_char(&mut out, '\\');
            push_char(&mut out, 'n');
        } else if c == '\t' {
            push_char(&mut out, '\\');
            push_char(&mut out, 't');
        } else if c == '\r' {
            push_char(&mut out, '\\');
            push_char(&mut out, 'r');
        } else {
            push_char(&mut out, c);
        }
        proof {
            lemma_esc_push(s@.subrange(0, i as int), c);
            assert(s@.subrange(0, i as int).push(c) =~= s@.subrange(0, i as int + 1));
            assert(out@ =~= esc(s@.subrange(0, i as int)) + esc_char(c));
        }
        i = i + 1;
    }
    proof {
        assert(s@.subrange(0, n as int) =~= s@);
    }
    out
}

/// Read a one-line field back, rejecting text that no escaping produces.
pub fn unescape_field(s: &str) -> (r: Option<String>)
    ensures
        match r {
            Some(t) => unesc(s@) == Some(t@),
            None => unesc(s@) is None,
        },
{
    let n = s.unicode_len();
    let mut out = String::new();
    proof {
        assert(s@.subrange(0, n as int) =~= s@);
        if unesc(s@) is Some {
            assert(Seq::<char>::empty() + unesc(s@)->Some_0 =~= unesc(s@)->Some_0);
        }
    }
    let mut i: usize = 0;
    while i < n
        invariant
            i <= n,
            n == s@.len(),
            match unesc(s@.subrange(i as int, n as int)) {
                Some(t) => unesc(s@) == Some(out@ + t),
                None => unesc(s@) is None,
            },
        decreases n - i,
    {
        let c = s.get_char(i);
        if c == '\\' {
            if i + 1 >= n {
                return None;
            }
            let c2 = s.get_char(i + 1);
            let decoded: char = if c2 == '\\' {
                '\\'
            } else if c2 == 'n' {
                '\n'
            } else if c2 == 't' {
                '\t'
            } else if c2 == 'r' {
                '\r'
            } else {
                return None;
            };
            proof {
                let suf = s@.subrange(i as int, n as int);
                assert(suf.subrange(2, suf.len() as int) =~= s@.subrange(i as int + 2, n as int));
            }
            push_char(&mut out, decoded);
            proof {
                let suf2 = s@.subrange(i as int + 2, n as int);
                if unesc(suf2) is Some {
                    assert(out@ + unesc(suf2)->Some_0 =~= (out@.drop_last() + seq![decoded])
                        + unesc(suf2)->Some_0);
                    assert(out@.drop_last() + (seq![decoded] + unesc(suf2)->Some_0) =~= (
                    out@.drop_last() + seq![decoded]) + unesc(suf2)->Some_0);
                }
            }
            i = i + 2;
        } else {
            proof {
                let suf = s@.subrange(i as int, n as int);
                assert(suf.subrange(1, suf.len() as int) =~= s@.subrange(i as int + 1, n as int));
            }
            push_char(&mut out, c);
            proof {
                let suf2 = s@.subrange(i as int + 1, n as int);
                if unesc(suf2) is Some {
                    assert(out@ + unesc(suf2)->Some_0 =~= (out@.drop_last() + seq![c]) + unesc(
                    suf2)->Some_0);
                    assert(out@.drop_last() + (seq![c] + unesc(suf2)->Some_0) =~= (out@.drop_last()
                        + seq![c]) + unesc(suf2)->Some_0);
                }
            }
            i = i + 1;
        }
    }
    proof {
        assert(s@.subrange(n as int, n as int) =~= Seq::<char>::empty());
        assert(out@ + Seq::<char>::empty() =~= out@);
    }
    Some(out)
}

/// Character-for-character string comparison.
pub fn str_eq(a: &str, b: &str) -> (r: bool)
    ensures
        r == (a@ == b@),
{
    let na = a.unicode_len();
    let nb = b.unicode_len();
    if na != nb {
        return false;
    }
    let mut i: usize = 0;
    while i < na
        invariant
            i <= na,
            na == a@.len(),
            na == b@.len(),
            forall|j: int| 0 <= j < i ==> a@[j] == b@[j],
        decreases na - i,
    {
        if a.get_char(i) != b.get_char(i) {
            return false;
        }
        i = i + 1;
    }
    proof {
        assert(a@ =~= b@);
    }
    true
}

/// The segments of `s` between occurrences of `sep`; always at least one
/// segment, and empty text is the single empty segment.
pub open spec fn split_on(s: Seq<char>, sep: char) -> Seq<Seq<char>>
    decreases s.len(),
{
    if s.len() == 0 {
        seq![Seq::<char>::empty()]
    } else {
        let r = split_on(s.subrange(1, s.len() as int), sep);
        if s[0] == sep {
            seq![Seq::<char>::empty()] + r
        } else {
            seq![seq![s[0]] + r[0]] + r.subrange(1, r.len() as int)
        }
    }
}

pub proof fn lemma_split_on_len(s: Seq<char>, sep: char)
    ensures
        split_on(s, sep).len() >= 1,
    decreases s.len(),
{
    if s.len() > 0 {
        lemma_split_on_len(s.subrange(1, s.len() as int), sep);
    }
}

/// Appending one character either opens a new empty segment (a separator) or
/// extends the last segment.
pub proof fn lemma_split_on_push(s: Seq<char>, c: char, sep: char)
    ensures
        split_on(s.push(c), sep) == if c == sep {
            split_on(s, sep).push(Seq::<char>::empty())
        } else {
            split_on(s, sep).update(split_on(s, sep).len() - 1, split_on(s, sep).last().push(c))
        },
    decreases s.len(),
{
    lemma_split_on_len(s, sep);
    if s.len() == 0 {
        assert(s.push(c) =~= seq![c]);
        assert(seq![c].subrange(1, 1) =~= Seq::<char>::empty());
        assert(split_on(Seq::<char>::empty(), sep) == seq![Seq::<char>::empty()]);
        assert(s =~= Seq::<char>::empty());
        if c == sep {
            assert(split_on(seq![c], sep) =~= split_on(s, sep).push(Seq::<char>::empty()));
        } else {
            assert(seq![c] + Seq::<char>::empty() =~= seq![c]);
            assert(Seq::<char>::empty().push(c) =~= seq![c]);
            assert(split_on(seq![c], sep) =~= split_on(s, sep).update(0, split_on(s, sep)[0].push(
            c)));
        }
    } else {
        let rest = s.subrange(1, s.len() as int);
        lemma_split_on_push(rest, c, sep);
        lemma_split_on_len(rest, sep);
        assert(s.push(c)[0] == s[0]);
        assert(s.push(c).subrange(1, s.push(c).len() as int) =~= rest.push(c));
        let r = split_on(rest, sep);
        let rp = split_on(rest.push(c), sep);
        if c == sep {
            assert(rp == r.push(Seq::<char>::empty()));
            if s[0] == sep {
                assert(seq![Seq::<char>::empty()] + rp =~= (seq![Seq::<char>::empty()]
                    + r).push(Seq::<char>::empty()));
            } else {
                assert(rp[0] == r[0]);
                assert(rp.subrange(1, rp.len() as int) =~= r.subrange(1, r.len() as int).push(
                Seq::<char>::empty()));
                assert(seq![seq![s[0]] + rp[0]] + rp.subrange(1, rp.len() as int) =~= (seq![
                    seq![s[0]] + r[0]] + r.subrange(1, r.len() as int)).push(Seq::<char>::empty()));
            }
        } else {
            assert(rp == r.update(r.len() - 1, r.last().push(c)));
            if s[0] == sep {
                assert(seq![Seq::<char>::empty()] + rp =~= (seq![Seq::<char>::empty()] + r).update(
                (seq![Seq::<char>::empty()] + r).len() - 1, (seq![Seq::<char>::empty()]
                    + r).last().push(c)));
            } else {
                let whole = seq![seq![s[0]] + r[0]] + r.subrange(1, r.len() as int);
                if r.len() == 1 {
                    assert(rp[0] == r[0].push(c));
                    assert(seq![seq![s[0]] + rp[0]] + rp.subrange(1, rp.len() as int) =~=
                    whole.update(whole.len() - 1, whole.last().push(c)));
                } else {
                    assert(rp[0] == r[0]);
                    assert(rp.subrange(1, rp.len() as int) =~= r.subrange(1, r.len() as int).update(
                    r.len() - 2, r.last().push(c)));
                    assert(seq![seq![s[0]] + rp[0]] + rp.subrange(1, rp.len() as int) =~=
                    whole.update(whole.len() - 1, whole.last().push(c)));
                }
            }
        }
    }
}

/// Split `s` at every occurrence of `sep`.
pub fn split_on_char(s: &str, sep: char) -> (r: Vec<String>)
    ensures
        r.deep_view() == split_on(s@, sep),
        r.len() >= 1,
{
    let n = s.unicode_len();
    let mut parts: Vec<String> = Vec::new();
    let mut cur = String::new();
    let mut i: usize = 0;
    proof {
        assert(s@.subrange(0, 0) =~= Seq::<char>::empty());
        assert(parts.deep_view().push(cur@) =~= split_on(s@.subrange(0, 0), sep));
    }
    while i < n
        invariant
            i <= n,
            n == s@.len(),
            split_on(s@.subrange(0, i as int), sep) == parts.deep_view().push(cur@),
        decreases n - i,
    {
        let c = s.get_char(i);
        proof {
            lemma_split_on_push(s@.subrange(0, i as int), c, sep);
            assert(s@.subrange(0, i as int).push(c) =~= s@.subrange(0, i as int + 1));
        }
        if c == sep {
            let finished = cur;
            parts.push(finished);
            cur = String::new();
            proof {
                assert(parts.deep_view().push(cur@) =~= split_on(s@.subrange(0, i as int),
                sep).push(Seq::<char>::empty()));
            }
        } else {
            push_char(&mut cur, c);
            proof {
                let prev = split_on(s@.subrange(0, i as int), sep);
                assert(prev.last() == prev[prev.len() - 1]);
                assert(parts.deep_view().push(cur@) =~= prev.update(prev.len() - 1,
                prev.last().push(c)));
            }
        }
        i = i + 1;
    }
    proof {
        assert(s@.subrange(0, n as int) =~= s@);
    }
    parts.push(cur);
    proof {
        lemma_split_on_len(s@, sep);
    }
    parts
}

/// The segments re-joined with `sep` between them.
pub open spec fn join_with(parts: Seq<Seq<char>>, sep: char) -> Seq<char>
    decreases parts.len(),
{
    if parts.len() == 0 {
        Seq::empty()
    } else if parts.len() == 1 {
        parts[0]
    } else {
        parts[0] + seq![sep] + join_with(parts.subrange(1, parts.len() as int), sep)
    }
}

/// Splitting what was joined from separator-free segments gives the segments
/// back.
pub proof fn lemma_split_join(parts: Seq<Seq<char>>, sep: char)
    requires
        parts.len() >= 1,
        forall|i: int| 0 <= i < parts.len() ==> !parts[i].contains(sep),
    ensures
        split_on(join_with(parts, sep), sep) == parts,
    decreases parts.len(),
{
    if parts.len() == 1 {
        lemma_split_clean_concat(parts[0], Seq::<char>::empty(), sep);
        assert(parts[0] + Seq::<char>::empty() =~= parts[0]);
        assert(split_on(Seq::<char>::empty(), sep) == seq![Seq::<char>::empty()]);
        assert(seq![parts[0] + Seq::<char>::empty()] + seq![Seq::<char>::empty()].subrange(1, 1)
            =~= parts);
    } else {
        let rest = parts.subrange(1, parts.len() as int);
        lemma_split_join(rest, sep);
        let jr = join_with(rest, sep);
        assert(join_with(parts, sep) =~= parts[0] + (seq![sep] + jr));
        lemma_split_clean_concat(parts[0], seq![sep] + jr, sep);
        assert((seq![sep] + jr)[0] == sep);
        assert((seq![sep] + jr).subrange(1, (seq![sep] + jr).len() as int) =~= jr);
        lemma_split_on_len(jr, sep);
        assert(split_on(seq![sep] + jr, sep) == seq![Seq::<char>::empty()] + split_on(jr, sep));
        assert(split_on(seq![sep] + jr, sep)[0] == Seq::<char>::empty());
        assert(parts[0] + Seq::<char>::empty() =~= parts[0]);
        assert(split_on(seq![sep] + jr, sep).subrange(1, split_on(seq![sep] + jr, sep).len() as int)
            =~= split_on(jr, sep));
        assert(seq![parts[0]] + rest =~= parts);
    }
}

/// Splitting text that starts with a separator-free prefix keeps that prefix
/// inside the first segment.
pub proof fn lemma_split_clean_concat(a: Seq<char>, t: Seq<char>, sep: char)
    requires
        !a.contains(sep),
    ensures
        split_on(a + t, sep) == seq![a + split_on(t, sep)[0]] + split_on(t, sep).subrange(1,
        split_on(t, sep).len() as int),
    decreases a.len(),
{
    lemma_split_on_len(t, sep);
    if a.len() == 0 {
        assert(a + t =~= t);
        let st = split_on(t, sep);
        assert(a + st[0] =~= st[0]);
        assert(seq![st[0]] + st.subrange(1, st.len() as int) =~= st);
    } else {
        let ar = a.subrange(1, a.len() as int);
        assert(forall|i: int| 0 <= i < ar.len() ==> ar[i] == a[i + 1]);
        assert(!ar.contains(sep)) by {
            if ar.contains(sep) {
                let i = choose|i: int| 0 <= i < ar.len() && ar[i] == sep;
                assert(a[i + 1] == sep);
            }
        }
        lemma_split_clean_concat(ar, t, sep);
        assert((a + t)[0] == a[0]);
        assert(a[0] != sep) by {
            if a[0] == sep {
                assert(a.contains(sep));
            }
        }
        assert((a + t).subrange(1, (a + t).len() as int) =~= ar + t);
        let st = split_on(t, sep);
        let sr = split_on(ar + t, sep);
        assert(sr == seq![ar + st[0]] + st.subrange(1, st.len() as int));
        assert(sr[0] == ar + st[0]);
        assert(seq![a[0]] + (ar + st[0]) =~= a + st[0]);
        assert(sr.subrange(1, sr.len() as int) =~= st.subrange(1, st.len() as int));
        assert(seq![seq![a[0]] + sr[0]] + sr.subrange(1, sr.len() as int) =~= seq![a + st[0]]
            + st.subrange(1, st.len() as int));
    }
}

/// Join segments with `sep` between them.
pub fn join_with_char(parts: &Vec<String>, sep: char) -> (r: String)
    ensures
        r@ == join_with(parts.deep_view(), sep),
{
    let mut out = String::new();
    let mut i: usize = 0;
    while i < parts.len()
        invariant
            i <= parts.len(),
            out@ == join_with(parts.deep_view().subrange(0, i as int), sep),
        decreases parts.len() - i,
    {
        proof {
            lemma_join_with_push(parts.deep_view().subrange(0, i as int), parts.deep_view()[
            i as int], sep);
            assert(parts.deep_view().subrange(0, i as int).push(parts.deep_view()[i as int]) =~=
            parts.deep_view().subrange(0, i as int + 1));
        }
        if i > 0 {
            push_char(&mut out, sep);
        }
        out.append(parts[i].as_str());
        i = i + 1;
    }
    proof {
        assert(parts.deep_view().subrange(0, parts.len() as int) =~= parts.deep_view());
    }
    out
}

/// Whether `s` begins with `p`.
pub open spec fn spec_starts_with(s: Seq<char>, p: Seq<char>) -> bool {
    s.len() >= p.len() && s.subrange(0, p.len() as int) == p
}

/// Character-level prefix test.
pub fn str_starts_with(s: &str, p: &str) -> (r: bool)
    ensures
        r == spec_starts_with(s@, p@),
{
    let n = s.unicode_len();
    let m = p.unicode_len();
    if n < m {
        proof {
            assert(!spec_starts_with(s@, p@));
        }
        return false;
    }
    let mut i: usize = 0;
    while i < m
        invariant
            i <= m,
            m <= n,
            n == s@.len(),
            m == p@.len(),
            forall|j: int| 0 <= j < i ==> s@[j] == p@[j],
        decreases m - i,
    {
        if s.get_char(i) != p.get_char(i) {
            proof {
                if spec_starts_with(s@, p@) {
                    assert(s@.subrange(0, m as int)[i as int] == p@[i as int]);
                }
            }
            return false;
        }
        i = i + 1;
    }
    proof {
        assert(s@.subrange(0, m as int) =~= p@);
    }
    true
}

/// Whether `pat` occurs in `s` starting at `i`.
pub open spec fn match_at(s: Seq<char>, pat: Seq<char>, i: int) -> bool {
    0 <= i && i + pat.len() <= s.len() && s.subrange(i, i + pat.len()) == pat
}

/// The first occurrence of `pat` inside `s`.
pub fn find_subseq(s: &str, pat: &str) -> (r: Option<usize>)
    ensures
        match r {
            Some(i) => match_at(s@, pat@, i as int) && forall|j: int|
                0 <= j < i ==> !match_at(s@, pat@, j),
            None => forall|j: int| !match_at(s@, pat@, j),
        },
{
    let n = s.unicode_len();
    let m = pat.unicode_len();
    if m > n {
        proof {
            assert(forall|j: int| !match_at(s@, pat@, j));
        }
        return None;
    }
    let mut i: usize = 0;
    while i <= n - m
        invariant
            m <= n,
            n == s@.len(),
            m == pat@.len(),
            i <= n - m + 1,
            forall|j: int| 0 <= j < i ==> !match_at(s@, pat@, j),
        decreases n - m + 1 - i,
    {
        let mut k: usize = 0;
        let mut matched = true;
        while k < m
            invariant
                k <= m,
                i + m <= n,
                n == s@.len(),
                m == pat@.len(),
                matched ==> forall|j: int| 0 <= j < k ==> s@[i + j] == pat@[j],
                !matched ==> !match_at(s@, pat@, i as int),
                !matched ==> m > 0,
            decreases m - k,
        {
            if s.get_char(i + k) != pat.get_char(k) {
                proof {
                    if match_at(s@, pat@, i as int) {
                        assert(s@.subrange(i as int, i + m)[k as int] == pat@[k as int]);
                    }
                }
                matched = false;
                k = m;
            } else {
                k = k + 1;
            }
        }
        if matched {
            proof {
                assert(s@.subrange(i as int, i + m) =~= pat@);
            }
            return Some(i);
        }
        i = i + 1;
    }
    proof {
        assert forall|j: int| !match_at(s@, pat@, j) by {
            if match_at(s@, pat@, j) {
                assert(0 <= j < i);
            }
        }
    }
    None
}

pub open spec fn is_ws(c: char) -> bool {
    c == ' ' || c == '\t' || c == '\r' || c == '\n'
}

/// Leading whitespace dropped.
pub open spec fn spec_trim_ws_start(s: Seq<char>) -> Seq<char>
    decreases s.len(),
{
    if s.len() > 0 && is_ws(s[0]) {
        spec_trim_ws_start(s.subrange(1, s.len() as int))
    } else {
        s
    }
}

/// Leading and trailing whitespace dropped.
pub open spec fn spec_trim_ws(s: Seq<char>) -> Seq<char>
    decreases s.len(),
{
    if s.len() > 0 && is_ws(s[0]) {
        spec_trim_ws(s.subrange(1, s.len() as int))
    } else if s.len() > 0 && is_ws(s.last()) {
        spec_trim_ws(s.drop_last())
    } else {
        s
    }
}

fn is_ws_char(c: char) -> (r: bool)
    ensures
        r == is_ws(c),
{
    c == ' ' || c == '\t' || c == '\r' || c == '\n'
}

/// Trimming never lengthens the text.
pub proof fn lemma_trim_ws_len(s: Seq<char>)
    ensures
        spec_trim_ws(s).len() <= s.len(),
    decreases s.len(),
{
    if s.len() > 0 && is_ws(s[0]) {
        lemma_trim_ws_len(s.subrange(1, s.len() as int));
    } else if s.len() > 0 && is_ws(s.last()) {
        lemma_trim_ws_len(s.drop_last());
    }
}

/// Text that trimming leaves alone neither starts nor ends with whitespace.
pub proof fn lemma_trim_ws_fixpoint(s: Seq<char>)
    requires
        spec_trim_ws(s) == s,
    ensures
        s.len() > 0 ==> !is_ws(s[0]) && !is_ws(s.last()),
{
    if s.len() > 0 {
        if is_ws(s[0]) {
            lemma_trim_ws_len(s.subrange(1, s.len() as int));
        } else if is_ws(s.last()) {
            lemma_trim_ws_len(s.drop_last());
        }
    }
}

/// Trimming strips a two-newline prefix and a one-newline suffix from
/// already-trimmed text.
pub proof fn lemma_trim_ws_wrap(s: Seq<char>)
    requires
        spec_trim_ws(s) == s,
    ensures
        spec_trim_ws(seq!['\n', '\n'] + s + seq!['\n']) == s,
{
    lemma_trim_ws_fixpoint(s);
    let w0 = seq!['\n', '\n'] + s + seq!['\n'];
    let w1 = seq!['\n'] + s + seq!['\n'];
    let w2 = s + seq!['\n'];
    assert(w0[0] == '\n');
    assert(w0.subrange(1, w0.len() as int) =~= w1);
    assert(spec_trim_ws(w0) == spec_trim_ws(w1));
    assert(w1[0] == '\n');
    assert(w1.subrange(1, w1.len() as int) =~= w2);
    assert(spec_trim_ws(w1) == spec_trim_ws(w2));
    if s.len() == 0 {
        assert(w2 =~= seq!['\n']);
        assert(w2[0] == '\n');
        assert(w2.subrange(1, 1) =~= Seq::<char>::empty());
        assert(spec_trim_ws(w2) == spec_trim_ws(Seq::<char>::empty()));
        assert(spec_trim_ws(Seq::<char>::empty()) =~= s);
    } else {
        assert(w2[0] == s[0]);
        assert(w2.last() == '\n');
        assert(w2.drop_last() =~= s);
        assert(spec_trim_ws(w2) == spec_trim_ws(s));
    }
}

/// Drop leading whitespace.
pub fn trim_ws_start<'a>(s: &'a str) -> (r: &'a str)
    ensures
        r@ == spec_trim_ws_start(s@),
{
    let n = s.unicode_len();
    let mut lo: usize = 0;
    proof {
        assert(s@.subrange(0, n as int) =~= s@);
    }
    while lo < n && is_ws_char(s.get_char(lo))
        invariant
            lo <= n,
            n == s@.len(),
            spec_trim_ws_start(s@) == spec_trim_ws_start(s@.subrange(lo as int, n as int)),
        decreases n - lo,
    {
        proof {
            let seg = s@.subrange(lo as int, n as int);
            assert(seg.subrange(1, seg.len() as int) =~= s@.subrange(lo as int + 1, n as int));
        }
        lo = lo + 1;
    }
    proof {
        let seg = s@.subrange(lo as int, n as int);
        if seg.len() > 0 {
            assert(seg[0] == s@[lo as int]);
        }
        assert(spec_trim_ws_start(seg) == seg);
    }
    s.substring_char(lo, n)
}

/// Drop leading and trailing whitespace.
#[verifier::rlimit(60)]
pub fn trim_ws<'a>(s: &'a str) -> (r: &'a str)
    ensures
        r@ == spec_trim_ws(s@),
{
    let n = s.unicode_len();
    let mut lo: usize = 0;
    let mut hi: usize = n;
    proof {
        assert(s@.subrange(0, n as int) =~= s@);
    }
    while lo < hi && is_ws_char(s.get_char(lo))
        invariant
            0 <= lo <= hi <= n,
            n == s@.len(),
            spec_trim_ws(s@) == spec_trim_ws(s@.subrange(lo as int, hi as int)),
            hi < n ==> is_ws(s@[hi as int]),
        decreases hi - lo,
    {
        proof {
            let seg = s@.subrange(lo as int, hi as int);
            assert(seg.subrange(1, seg.len() as int) =~= s@.subrange(lo as int + 1, hi as int));
        }
        lo = lo + 1;
    }
    while lo < hi && is_ws_char(s.get_char(hi - 1))
        invariant
            0 <= lo <= hi <= n,
            n == s@.len(),
            spec_trim_ws(s@) == spec_trim_ws(s@.subrange(lo as int, hi as int)),
            lo < hi ==> !is_ws(s@[lo as int]),
        decreases hi - lo,
    {
        proof {
            let seg = s@.subrange(lo as int, hi as int);
            assert(seg.drop_last() =~= s@.subrange(lo as int, hi as int - 1));
            assert(seg[0] == s@[lo as int]);
        }
        hi = hi - 1;
    }
    proof {
        let seg = s@.subrange(lo as int, hi as int);
        if seg.len() > 0 {
            assert(seg[0] == s@[lo as int]);
            assert(seg.last() == s@[hi - 1]);
        }
        assert(spec_trim_ws(seg) == seg);
    }
    s.substring_char(lo, hi)
}

/// Joining one more segment appends a separator (when anything came before)
/// and then the segment.
pub proof fn lemma_join_with_push(parts: Seq<Seq<char>>, x: Seq<char>, sep: char)
    ensures
        join_with(parts.push(x), sep) == if parts.len() == 0 {
            x
        } else {
            join_with(parts, sep) + seq![sep] + x
        },
    decreases parts.len(),
{
    if parts.len() == 0 {
        assert(parts.push(x)[0] == x);
    } else if parts.len() == 1 {
        assert(parts.push(x).subrange(1, 2) =~= seq![x]);
        assert(join_with(seq![x], sep) == x);
        assert(parts.push(x)[0] == parts[0]);
    } else {
        let rest = parts.subrange(1, parts.len() as int);
        lemma_join_with_push(rest, x, sep);
        assert(parts.push(x)[0] == parts[0]);
        assert(parts.push(x).subrange(1, parts.push(x).len() as int) =~= rest.push(x));
        assert(parts[0] + seq![sep] + (join_with(rest, sep) + seq![sep] + x) =~= (parts[0]
            + seq![sep] + join_with(rest, sep)) + seq![sep] + x);
    }
}

} // verus!
