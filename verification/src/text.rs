//! Verified text utilities: decimal parsing, splitting and trimming.
//!
//! The crawler wire formats are plain text: slash-delimited integer lists
//! for player reports and comma- or semicolon-delimited listings for the
//! hall of fame. These helpers give that text an exact grammar.

use vstd::prelude::*;

verus! {

/// A decimal digit.
pub open spec fn is_digit(c: char) -> bool {
    48 <= c as u32 <= 57
}

/// The value of one digit; non-digits count as zero (they only appear in
/// text the parsers reject).
pub open spec fn digit_val(c: char) -> nat {
    if is_digit(c) {
        (c as u32 - 48) as nat
    } else {
        0
    }
}

/// Every character is a digit.
pub open spec fn all_digits(s: Seq<char>) -> bool {
    forall|i: int| 0 <= i < s.len() ==> is_digit(#[trigger] s[i])
}

/// The number the digit string denotes, most significant digit first.
pub open spec fn digits_val(s: Seq<char>) -> nat
    decreases s.len(),
{
    if s.len() == 0 {
        0
    } else {
        digits_val(s.drop_last()) * 10 + digit_val(s.last())
    }
}

/// Longer digit strings denote at least as large numbers.
proof fn lemma_digits_val_prefix_le(s: Seq<char>, i: int, j: int)
    requires
        0 <= i <= j <= s.len(),
    ensures
        digits_val(s.subrange(0, i)) <= digits_val(s.subrange(0, j)),
    decreases j - i,
{
    if i < j {
        lemma_digits_val_prefix_le(s, i, j - 1);
        assert(s.subrange(0, j).drop_last() =~= s.subrange(0, j - 1));
        assert(digits_val(s.subrange(0, j)) == digits_val(s.subrange(0, j - 1)) * 10 + digit_val(
            s[j - 1],
        ));
    }
}

/// What unsigned decimal parsing returns: the denoted value for a
/// non-empty all-digit string (with one optional leading plus sign) whose
/// value fits, nothing otherwise.
pub open spec fn spec_parse_u64(s: Seq<char>) -> Option<u64> {
    let body = if s.len() > 0 && s[0] == '+' {
        s.drop_first()
    } else {
        s
    };
    if body.len() == 0 || !all_digits(body) || digits_val(body) > u64::MAX {
        Option::None
    } else {
        Option::Some(digits_val(body) as u64)
    }
}

/// What signed decimal parsing returns: the denoted value for a non-empty
/// all-digit string with one optional sign, when it fits in the type.
pub open spec fn spec_parse_i64(s: Seq<char>) -> Option<i64> {
    if s.len() == 0 {
        Option::None
    } else {
        let signed = s[0] == '-' || s[0] == '+';
        let neg = s[0] == '-';
        let body = if signed {
            s.drop_first()
        } else {
            s
        };
        if body.len() == 0 || !all_digits(body) {
            Option::None
        } else {
            let v = digits_val(body);
            if neg && v <= 0x8000_0000_0000_0000 {
                Option::Some((-(v as int)) as i64)
            } else if !neg && v <= 0x7fff_ffff_ffff_ffff {
                Option::Some(v as i64)
            } else {
                Option::None
            }
        }
    }
}

/// Parses the digit run `s[from..to]` as a `u64`, returning nothing when
/// a non-digit appears or the value overflows.
#[verifier::loop_isolation(false)]
fn parse_digits(s: &str, from: usize, to: usize) -> (r: Option<u64>)
    requires
        from <= to <= s@.len(),
    ensures
        match r {
            Option::Some(v) => all_digits(s@.subrange(from as int, to as int)) && v
                == digits_val(s@.subrange(from as int, to as int)),
            Option::None => !all_digits(s@.subrange(from as int, to as int)) || digits_val(
                s@.subrange(from as int, to as int),
            ) > u64::MAX,
        },
{
    let ghost body = s@.subrange(from as int, to as int);
    let mut acc: u64 = 0;
    let mut i: usize = from;
    while i < to
        invariant
            from <= i <= to,
            all_digits(s@.subrange(from as int, i as int)),
            acc == digits_val(s@.subrange(from as int, i as int)),
        decreases to - i,
    {
        let c = s.get_char(i);
        let cv = c as u32;
        proof {
            assert(s@.subrange(from as int, i + 1 as int).drop_last() =~= s@.subrange(
                from as int,
                i as int,
            ));
        }
        if cv < 48 || cv > 57 {
            proof {
                assert(!is_digit(s@.subrange(from as int, to as int)[i - from]));
            }
            return None;
        }
        let d = (cv - 48) as u64;
        let next = match acc.checked_mul(10) {
            Some(x) => x.checked_add(d),
            None => None,
        };
        match next {
            Some(x) => {
                acc = x;
            },
            None => {
                proof {
                    assert(digits_val(s@.subrange(from as int, i + 1 as int)) > u64::MAX);
                    lemma_digits_val_prefix_le(
                        s@.subrange(from as int, to as int),
                        i + 1 - from,
                        to - from,
                    );
                    assert(s@.subrange(from as int, to as int).subrange(0, i + 1 - from)
                        =~= s@.subrange(from as int, i + 1 as int));
                    assert(s@.subrange(from as int, to as int).subrange(0, to - from) =~= s@.subrange(
                        from as int,
                        to as int,
                    ));
                }
                return None;
            },
        }
        i = i + 1;
    }
    proof {
        if !all_digits(body) {
            let k = choose|k: int| 0 <= k < body.len() && !is_digit(body[k]);
            assert(is_digit(s@.subrange(from as int, to as int)[k]));
        }
    }
    Some(acc)
}

/// Parses a signed decimal integer, with the grammar of the standard
/// string-to-integer conversion: one optional sign, then digits only.
pub fn parse_i64(s: &str) -> (r: Option<i64>)
    ensures
        r == spec_parse_i64(s@),
{
    let n = s.unicode_len();
    if n == 0 {
        return None;
    }
    let c0 = s.get_char(0);
    let signed = c0 == '-' || c0 == '+';
    let neg = c0 == '-';
    let start: usize = if signed {
        1
    } else {
        0
    };
    if n == start {
        return None;
    }
    proof {
        if signed {
            assert(s@.subrange(1, n as int) =~= s@.drop_first());
        } else {
            assert(s@.subrange(0, n as int) =~= s@);
        }
    }
    let mag = match parse_digits(s, start, n) {
        Some(v) => v,
        None => {
            return None;
        },
    };
    if neg {
        if mag <= 0x7fff_ffff_ffff_ffff {
            Some(-(mag as i64))
        } else if mag == 0x8000_0000_0000_0000 {
            Some(i64::MIN)
        } else {
            None
        }
    } else {
        if mag <= 0x7fff_ffff_ffff_ffff {
            Some(mag as i64)
        } else {
            None
        }
    }
}

/// Parses an unsigned decimal integer: one optional plus sign, then
/// digits only.
pub fn parse_u64(s: &str) -> (r: Option<u64>)
    ensures
        r == spec_parse_u64(s@),
{
    let n = s.unicode_len();
    if n == 0 {
        return None;
    }
    let c0 = s.get_char(0);
    let start: usize = if c0 == '+' {
        1
    } else {
        0
    };
    if n == start {
        return None;
    }
    proof {
        if c0 == '+' {
            assert(s@.subrange(1, n as int) =~= s@.drop_first());
        } else {
            assert(s@.subrange(0, n as int) =~= s@);
        }
    }
    parse_digits(s, start, n)
}

/// How text splits on a separator: the separator-free stretches between
/// occurrences, in order. Splitting empty text gives one empty part, and
/// every separator occurrence ends a part, so adjacent or trailing
/// separators give empty parts.
pub open spec fn spec_split(s: Seq<char>, sep: char) -> Seq<Seq<char>>
    decreases s.len(),
{
    if s.len() == 0 {
        seq![Seq::empty()]
    } else if s[0] == sep {
        seq![Seq::<char>::empty()] + spec_split(s.drop_first(), sep)
    } else {
        let rest = spec_split(s.drop_first(), sep);
        seq![seq![s[0]] + rest[0]] + rest.drop_first()
    }
}

/// Splitting always yields at least one part.
proof fn lemma_split_nonempty(s: Seq<char>, sep: char)
    ensures
        spec_split(s, sep).len() >= 1,
    decreases s.len(),
{
    if s.len() > 0 {
        lemma_split_nonempty(s.drop_first(), sep);
    }
}

/// When the first separator sits at `j`, the first part is everything
/// before it and the remaining parts split the text after it; text with
/// no separator at all is one single part.
proof fn lemma_split_first_sep(s: Seq<char>, sep: char, j: int)
    requires
        0 <= j <= s.len(),
        forall|k: int| 0 <= k < j ==> s[k] != sep,
        j < s.len() ==> s[j] == sep,
    ensures
        j == s.len() ==> spec_split(s, sep) == seq![s],
        j < s.len() ==> spec_split(s, sep) == seq![s.subrange(0, j)] + spec_split(
            s.subrange(j + 1, s.len() as int),
            sep,
        ),
    decreases j,
{
    lemma_split_nonempty(s, sep);
    if j == 0 {
        if s.len() == 0 {
            assert(spec_split(s, sep) =~~= seq![s]);
        } else {
            assert(s.drop_first() =~~= s.subrange(1, s.len() as int));
            assert(s.subrange(0, 0) =~~= Seq::<char>::empty());
            assert(spec_split(s, sep) =~~= seq![s.subrange(0, 0)] + spec_split(
                s.subrange(1, s.len() as int),
                sep,
            ));
        }
    } else {
        let tail = s.drop_first();
        lemma_split_first_sep(tail, sep, j - 1);
        let rest = spec_split(tail, sep);
        if j == s.len() {
            assert(rest == seq![tail]);
            assert(seq![s[0]] + rest[0] =~~= s);
            assert(spec_split(s, sep) =~~= seq![s]);
        } else {
            assert(rest == seq![tail.subrange(0, j - 1)] + spec_split(
                tail.subrange(j, tail.len() as int),
                sep,
            ));
            assert(seq![s[0]] + rest[0] =~~= s.subrange(0, j));
            assert(tail.subrange(j, tail.len() as int) =~~= s.subrange(j + 1, s.len() as int));
            assert(rest.drop_first() =~~= spec_split(s.subrange(j + 1, s.len() as int), sep));
            assert(spec_split(s, sep) =~~= seq![s.subrange(0, j)] + spec_split(
                s.subrange(j + 1, s.len() as int),
                sep,
            ));
        }
    }
}

/// Splits text on a separator character, as the grammar
/// [`spec_split`] reads it.
#[verifier::loop_isolation(false)]
pub fn split_str(s: &str, sep: char) -> (parts: Vec<String>)
    ensures
        parts.deep_view() == spec_split(s@, sep),
{
    let n = s.unicode_len();
    let mut parts: Vec<String> = Vec::new();
    proof {
        assert(s@.subrange(0, n as int) =~~= s@);
        assert(parts.deep_view() + spec_split(s@, sep) =~~= spec_split(s@, sep));
    }
    let mut start: usize = 0;
    let mut i: usize = 0;
    while i < n
        invariant
            start <= i <= n == s@.len(),
            forall|k: int| start <= k < i ==> s@[k] != sep,
            parts.deep_view() + spec_split(s@.subrange(start as int, n as int), sep) == spec_split(
                s@,
                sep,
            ),
        decreases n - i,
    {
        if s.get_char(i) == sep {
            let part = s.substring_char(start, i).to_owned();
            proof {
                let seg = s@.subrange(start as int, n as int);
                lemma_split_first_sep(seg, sep, i - start);
                assert(seg.subrange(0, i - start) =~~= s@.subrange(start as int, i as int));
                assert(seg.subrange(i - start + 1, seg.len() as int) =~~= s@.subrange(
                    i + 1,
                    n as int,
                ));
                assert((parts.deep_view() + seq![part@]) + spec_split(
                    s@.subrange(i + 1, n as int),
                    sep,
                ) =~~= parts.deep_view() + spec_split(s@.subrange(start as int, n as int), sep));
            }
            let ghost prev_dv = parts.deep_view();
            parts.push(part);
            proof {
                assert(parts.deep_view() =~~= prev_dv.push(part@));
            }
            start = i + 1;
        }
        i = i + 1;
    }
    let last = s.substring_char(start, n).to_owned();
    proof {
        let seg = s@.subrange(start as int, n as int);
        lemma_split_first_sep(seg, sep, seg.len() as int);
        assert(seg =~~= s@.subrange(start as int, n as int));
        assert(last@ =~~= seg);
    }
    let ghost prev_dv = parts.deep_view();
    parts.push(last);
    proof {
        assert(parts.deep_view() =~~= prev_dv.push(last@));
        assert(parts.deep_view() =~~= spec_split(s@, sep));
    }
    parts
}

/// ASCII whitespace, the characters the report wire format may pad with.
pub open spec fn is_space(c: char) -> bool {
    c == ' ' || c == '\t' || c == '\n' || c == '\r'
}

/// The text without leading characters satisfying `p`.
pub open spec fn spec_trim_front(s: Seq<char>, p: spec_fn(char) -> bool) -> Seq<char>
    decreases s.len(),
{
    if s.len() > 0 && p(s[0]) {
        spec_trim_front(s.drop_first(), p)
    } else {
        s
    }
}

/// The text without trailing characters satisfying `p`.
pub open spec fn spec_trim_back(s: Seq<char>, p: spec_fn(char) -> bool) -> Seq<char>
    decreases s.len(),
{
    if s.len() > 0 && p(s.last()) {
        spec_trim_back(s.drop_last(), p)
    } else {
        s
    }
}

/// The text without leading and trailing characters satisfying `p`.
pub open spec fn spec_trim(s: Seq<char>, p: spec_fn(char) -> bool) -> Seq<char> {
    spec_trim_back(spec_trim_front(s, p), p)
}

/// Finds the trimmed stretch `[a, b)` of `s` for characters satisfying
/// the run-time test `t`, which must decide `p`.
#[verifier::loop_isolation(false)]
fn trim_bounds<F: Fn(char) -> bool>(s: &str, t: &F, Ghost(p): Ghost<spec_fn(char) -> bool>) -> (r: (
    usize,
    usize,
))
    requires
        forall|c: char| #[trigger] t.requires((c,)),
        forall|c: char, b: bool| t.ensures((c,), b) ==> b == p(c),
    ensures
        r.0 <= r.1 <= s@.len(),
        s@.subrange(r.0 as int, r.1 as int) == spec_trim(s@, p),
{
    let n = s.unicode_len();
    proof {
        assert(s@.subrange(0, n as int) =~= s@);
    }
    let mut a: usize = 0;
    while a < n && t(s.get_char(a))
        invariant
            a <= n == s@.len(),
            spec_trim_front(s@, p) == spec_trim_front(s@.subrange(a as int, n as int), p),
        decreases n - a,
    {
        proof {
            assert(s@.subrange(a as int, n as int).drop_first() =~= s@.subrange(
                a + 1,
                n as int,
            ));
        }
        a = a + 1;
    }
    proof {
        if a < n {
            assert(!p(s@.subrange(a as int, n as int)[0]));
        }
        assert(spec_trim_front(s@, p) =~= s@.subrange(a as int, n as int));
    }
    let mut b: usize = n;
    while b > a && t(s.get_char(b - 1))
        invariant
            a <= b <= n,
            spec_trim_back(s@.subrange(a as int, n as int), p) == spec_trim_back(
                s@.subrange(a as int, b as int),
                p,
            ),
        decreases b,
    {
        proof {
            assert(s@.subrange(a as int, b as int).drop_last() =~= s@.subrange(
                a as int,
                b - 1,
            ));
            assert(s@.subrange(a as int, b as int).last() == s@[b - 1]);
        }
        b = b - 1;
    }
    proof {
        if b > a {
            assert(s@.subrange(a as int, b as int).last() == s@[b - 1]);
        }
        assert(spec_trim_back(s@.subrange(a as int, b as int), p) =~= s@.subrange(
            a as int,
            b as int,
        ));
    }
    (a, b)
}

/// The text without leading and trailing ASCII whitespace.
pub fn trim_spaces(s: &str) -> (r: String)
    ensures
        r@ == spec_trim(s@, |c: char| is_space(c)),
{
    let t = |c: char| -> (b: bool)
        ensures
            b == is_space(c),
        { c == ' ' || c == '\t' || c == '\n' || c == '\r' };
    let (a, b) = trim_bounds(s, &t, Ghost(|c: char| is_space(c)));
    s.substring_char(a, b).to_owned()
}

/// The text without leading and trailing occurrences of `sep`.
pub fn trim_sep(s: &str, sep: char) -> (r: String)
    ensures
        r@ == spec_trim(s@, |c: char| c == sep),
{
    let t = |c: char| -> (b: bool)
        ensures
            b == (c == sep),
        { c == sep };
    let (a, b) = trim_bounds(s, &t, Ghost(|c: char| c == sep));
    s.substring_char(a, b).to_owned()
}

/// The text ends with the given suffix.
pub open spec fn spec_ends_with(s: Seq<char>, t: Seq<char>) -> bool {
    t.len() <= s.len() && s.subrange(s.len() - t.len(), s.len() as int) == t
}

/// Whether `s` ends with `suffix`.
#[verifier::loop_isolation(false)]
pub fn str_ends_with(s: &str, suffix: &str) -> (r: bool)
    ensures
        r == spec_ends_with(s@, suffix@),
{
    let n = s.unicode_len();
    let m = suffix.unicode_len();
    if m > n {
        return false;
    }
    let base = n - m;
    let mut i: usize = 0;
    while i < m
        invariant
            i <= m,
            base == n - m,
            m <= n == s@.len(),
            m == suffix@.len(),
            forall|k: int| 0 <= k < i ==> s@[base + k] == suffix@[k],
        decreases m - i,
    {
        if s.get_char(base + i) != suffix.get_char(i) {
            proof {
                assert(s@.subrange(s@.len() - suffix@.len(), s@.len() as int)[i as int]
                    != suffix@[i as int]);
            }
            return false;
        }
        i = i + 1;
    }
    proof {
        assert(s@.subrange(s@.len() - suffix@.len(), s@.len() as int) =~= suffix@);
    }
    true
}

} // verus!
