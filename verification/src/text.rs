//! Text primitives: tokenization (word and character modes), separator
//! search for line parsing, and decimal / boolean parsing and formatting.
use vstd::prelude::*;
use vstd::string::StrSliceExecFns;
use vstd::string::StringExecFns;

verus! {

// ---------------------------------------------------------------------------
// Tokenization
// ---------------------------------------------------------------------------
/// Character mode: every Unicode scalar value of the text is its own
/// one-character token.
pub open spec fn spec_char_tokens(s: Seq<char>) -> Seq<Seq<char>> {
    Seq::new(s.len(), |i: int| seq![s[i]])
}

/// Tokens of `s` split on the single character `sep`, with `cur` the token
/// accumulated so far. Mirrors splitting on a single-character pattern:
/// empty tokens between consecutive separators are kept, and the empty
/// text yields one empty token.
pub open spec fn spec_split_acc(s: Seq<char>, sep: char, cur: Seq<char>) -> Seq<Seq<char>>
    decreases s.len(),
{
    if s.len() == 0 {
        seq![cur]
    } else if s[0] == sep {
        seq![cur] + spec_split_acc(s.drop_first(), sep, Seq::empty())
    } else {
        spec_split_acc(s.drop_first(), sep, cur.push(s[0]))
    }
}

/// Word mode: split on every occurrence of `sep`, keeping empty tokens.
pub open spec fn spec_split(s: Seq<char>, sep: char) -> Seq<Seq<char>> {
    spec_split_acc(s, sep, Seq::empty())
}

/// The token sequence of a text: split on single spaces in word mode,
/// one token per character otherwise.
pub open spec fn spec_tokenize(s: Seq<char>, word_mode: bool) -> Seq<Seq<char>> {
    if word_mode {
        spec_split(s, ' ')
    } else {
        spec_char_tokens(s)
    }
}

/// Split a text into tokens: on single space characters in word mode
/// (repeated separators yield empty tokens), one token per Unicode scalar
/// value otherwise.
pub fn tokenize(text: &str, word_mode: bool) -> (r: Vec<String>)
    ensures
        r.deep_view() == spec_tokenize(text@, word_mode),
{
    let n = text.unicode_len();
    let mut out: Vec<String> = Vec::new();
    if word_mode {
        let mut cur = String::new();
        let mut i: usize = 0;
        proof {
            assert(text@.skip(0) =~= text@);
            assert(out.deep_view() =~= Seq::<Seq<char>>::empty());
            assert(Seq::<Seq<char>>::empty() + spec_split_acc(text@, ' ', cur@) =~= spec_split_acc(
                text@,
                ' ',
                cur@,
            ));
        }
        while i < n
            invariant
                n == text@.len(),
                0 <= i <= n,
                spec_split(text@, ' ') == out.deep_view() + spec_split_acc(
                    text@.skip(i as int),
                    ' ',
                    cur@,
                ),
            decreases n - i,
        {
            let ghost prev = text@.skip(i as int);
            let ghost dv0 = out.deep_view();
            let ghost cur0 = cur@;
            let c = text.get_char(i);
            assert(prev.len() > 0 && prev[0] == text@[i as int]);
            assert(prev.drop_first() =~= text@.skip(i as int + 1));
            if c == ' ' {
                out.push(cur);
                cur = String::new();
                proof {
                    assert(spec_split_acc(prev, ' ', cur0) == seq![cur0] + spec_split_acc(
                        text@.skip(i as int + 1),
                        ' ',
                        Seq::empty(),
                    ));
                    assert(out.deep_view() =~= dv0 + seq![cur0]);
                    assert(dv0 + (seq![cur0] + spec_split_acc(
                        text@.skip(i as int + 1),
                        ' ',
                        cur@,
                    )) =~= (dv0 + seq![cur0]) + spec_split_acc(text@.skip(i as int + 1), ' ', cur@));
                }
            } else {
                let piece = text.substring_char(i, i + 1);
                cur.append(piece);
                proof {
                    assert(piece@ =~= seq![text@[i as int]]);
                    assert(cur@ =~= cur0.push(text@[i as int]));
                    assert(spec_split_acc(prev, ' ', cur0) == spec_split_acc(
                        text@.skip(i as int + 1),
                        ' ',
                        cur0.push(prev[0]),
                    ));
                }
            }
            i = i + 1;
        }
        let ghost dv0 = out.deep_view();
        let ghost cur0 = cur@;
        proof {
            assert(text@.skip(n as int) =~= Seq::<char>::empty());
            assert(spec_split_acc(Seq::<char>::empty(), ' ', cur0) == seq![cur0]);
        }
        out.push(cur);
        proof {
            assert(out.deep_view() =~= dv0 + seq![cur0]);
        }
        out
    } else {
        let mut i: usize = 0;
        proof {
            assert(out.deep_view() =~= spec_char_tokens(text@).take(0));
        }
        while i < n
            invariant
                n == text@.len(),
                0 <= i <= n,
                out.deep_view() == spec_char_tokens(text@).take(i as int),
            decreases n - i,
        {
            let ghost dv0 = out.deep_view();
            let piece = text.substring_char(i, i + 1);
            let owned = piece.to_owned();
            let ghost ov = owned@;
            out.push(owned);
            proof {
                assert(piece@ =~= seq![text@[i as int]]);
                assert(out.deep_view() =~= dv0.push(ov));
                assert(out.deep_view() =~= spec_char_tokens(text@).take(i as int + 1));
            }
            i = i + 1;
        }
        assert(out.deep_view() =~= spec_char_tokens(text@));
        out
    }
}

// ---------------------------------------------------------------------------
// Separator search (line splitting)
// ---------------------------------------------------------------------------
/// The separator occurs in `s` starting at position `i`.
pub open spec fn spec_match_at(s: Seq<char>, sep: Seq<char>, i: int) -> bool {
    s.subrange(i, i + sep.len() as int) == sep
}

/// The first position at or after `i` where the separator occurs, if any.
/// An empty separator never matches.
pub open spec fn spec_first_match_from(s: Seq<char>, sep: Seq<char>, i: int) -> Option<int>
    decreases s.len() - i,
{
    if i < 0 || sep.len() == 0 || i + sep.len() > s.len() {
        None
    } else if spec_match_at(s, sep, i) {
        Some(i)
    } else {
        spec_first_match_from(s, sep, i + 1)
    }
}

/// Split `s` at the first occurrence of the separator: the part before it
/// and the part after it, or nothing when the separator never occurs.
pub open spec fn spec_split_once(s: Seq<char>, sep: Seq<char>) -> Option<(Seq<char>, Seq<char>)> {
    match spec_first_match_from(s, sep, 0) {
        Some(i) => Some((s.take(i), s.skip(i + sep.len() as int))),
        None => None,
    }
}

/// Split a line at the first occurrence of `sep` into the text before and
/// after it; `None` when the separator does not occur.
pub fn split_once_str(s: &str, sep: &str) -> (r: Option<(String, String)>)
    ensures
        match r {
            Some(p) => spec_split_once(s@, sep@) == Some((p.0@, p.1@)),
            None => spec_split_once(s@, sep@) is None,
        },
{
    let n = s.unicode_len();
    let m = sep.unicode_len();
    if m == 0 || m > n {
        return None;
    }
    let mut i: usize = 0;
    while i <= n - m
        invariant
            n == s@.len(),
            m == sep@.len(),
            0 < m <= n,
            0 <= i <= n - m + 1,
            spec_first_match_from(s@, sep@, 0) == spec_first_match_from(s@, sep@, i as int),
        decreases n - i,
    {
        let mut j: usize = 0;
        let mut ok = true;
        while j < m
            invariant
                n == s@.len(),
                m == sep@.len(),
                i + m <= n,
                0 <= j <= m,
                ok ==> forall|k: int| 0 <= k < j ==> s@[i + k] == sep@[k],
                !ok ==> !spec_match_at(s@, sep@, i as int),
                !ok ==> j == m,
            decreases m - j,
        {
            if s.get_char(i + j) == sep.get_char(j) {
                j = j + 1;
            } else {
                proof {
                    let sub = s@.subrange(i as int, i + m);
                    assert(sub.len() == sep@.len());
                    assert(sub[j as int] != sep@[j as int]);
                }
                ok = false;
                j = m;
            }
        }
        if ok {
            assert(s@.subrange(i as int, i + m) =~= sep@);
            let before = s.substring_char(0, i).to_owned();
            let after = s.substring_char(i + m, n).to_owned();
            assert(before@ =~= s@.take(i as int));
            assert(after@ =~= s@.skip(i + m));
            assert(spec_first_match_from(s@, sep@, i as int) == Some(i as int));
            return Some((before, after));
        }
        proof {
            assert(spec_first_match_from(s@, sep@, i as int) == spec_first_match_from(
                s@,
                sep@,
                i as int + 1,
            ));
        }
        i = i + 1;
    }
    assert(spec_first_match_from(s@, sep@, i as int) is None);
    None
}

/// The split of every line on the first occurrence of `sep`, in order;
/// lines without the separator are dropped.
pub open spec fn spec_parse_lines(sep: Seq<char>, lines: Seq<Seq<char>>) -> Seq<
    (Seq<char>, Seq<char>),
>
    decreases lines.len(),
{
    if lines.len() == 0 {
        Seq::empty()
    } else {
        match spec_split_once(lines[0], sep) {
            Some(p) => seq![p] + spec_parse_lines(sep, lines.drop_first()),
            None => spec_parse_lines(sep, lines.drop_first()),
        }
    }
}

// ---------------------------------------------------------------------------
// Decimal formatting
// ---------------------------------------------------------------------------
/// The character for the decimal digit `d`.
pub open spec fn spec_digit_char(d: int) -> char {
    if d == 0 {
        '0'
    } else if d == 1 {
        '1'
    } else if d == 2 {
        '2'
    } else if d == 3 {
        '3'
    } else if d == 4 {
        '4'
    } else if d == 5 {
        '5'
    } else if d == 6 {
        '6'
    } else if d == 7 {
        '7'
    } else if d == 8 {
        '8'
    } else {
        '9'
    }
}

/// The decimal representation of a non-negative integer, without sign or
/// leading zeros (`0` itself is written `"0"`).
pub open spec fn spec_dec(n: int) -> Seq<char>
    decreases n,
{
    if n < 10 {
        seq![spec_digit_char(n)]
    } else {
        spec_dec(n / 10).push(spec_digit_char(n % 10))
    }
}

fn digit_str(d: usize) -> (r: &'static str)
    requires
        d < 10,
    ensures
        r@ == seq![spec_digit_char(d as int)],
{
    proof {
        reveal_strlit("0");
        reveal_strlit("1");
        reveal_strlit("2");
        reveal_strlit("3");
        reveal_strlit("4");
        reveal_strlit("5");
        reveal_strlit("6");
        reveal_strlit("7");
        reveal_strlit("8");
        reveal_strlit("9");
    }
    let r = if d == 0 {
        "0"
    } else if d == 1 {
        "1"
    } else if d == 2 {
        "2"
    } else if d == 3 {
        "3"
    } else if d == 4 {
        "4"
    } else if d == 5 {
        "5"
    } else if d == 6 {
        "6"
    } else if d == 7 {
        "7"
    } else if d == 8 {
        "8"
    } else {
        "9"
    };
    assert(r@ =~= seq![spec_digit_char(d as int)]);
    r
}

/// The decimal representation of `n`.
pub fn fmt_usize(n: usize) -> (r: String)
    ensures
        r@ == spec_dec(n as int),
    decreases n,
{
    if n < 10 {
        digit_str(n).to_owned()
    } else {
        let mut s = fmt_usize(n / 10);
        s.append(digit_str(n % 10));
        assert(s@ =~= spec_dec(n as int / 10).push(spec_digit_char(n as int % 10)));
        s
    }
}

// ---------------------------------------------------------------------------
// Decimal parsing
// ---------------------------------------------------------------------------
pub open spec fn spec_is_digit(c: char) -> bool {
    48 <= c as int <= 57
}

pub open spec fn spec_digit_val(c: char) -> int {
    c as int - 48
}

pub open spec fn spec_all_digits(s: Seq<char>) -> bool {
    forall|i: int| 0 <= i < s.len() ==> spec_is_digit(#[trigger] s[i])
}

/// The value of a non-empty digit string, most significant digit first.
pub open spec fn spec_digits_val(s: Seq<char>) -> int
    decreases s.len(),
{
    if s.len() == 0 {
        0
    } else {
        spec_digits_val(s.drop_last()) * 10 + spec_digit_val(s.last())
    }
}

/// The digit part of a decimal integer text: everything after one optional
/// leading `'+'`.
pub open spec fn spec_trim_plus(s: Seq<char>) -> Seq<char> {
    if s.len() > 0 && s[0] == '+' {
        s.drop_first()
    } else {
        s
    }
}

/// What parsing an unsigned decimal integer yields: an optional leading
/// `'+'`, then one or more digits whose value fits the machine word.
pub open spec fn spec_parse_usize(s: Seq<char>) -> Option<usize> {
    if spec_trim_plus(s).len() > 0 && spec_all_digits(spec_trim_plus(s)) && spec_digits_val(
        spec_trim_plus(s),
    ) <= usize::MAX {
        Some(spec_digits_val(spec_trim_plus(s)) as usize)
    } else {
        None
    }
}

proof fn lemma_digits_val_nonneg(s: Seq<char>)
    requires
        spec_all_digits(s),
    ensures
        spec_digits_val(s) >= 0,
    decreases s.len(),
{
    if s.len() > 0 {
        assert(spec_all_digits(s.drop_last()));
        lemma_digits_val_nonneg(s.drop_last());
    }
}

/// A digit string is worth at least any of its prefixes.
proof fn lemma_digits_val_prefix(s: Seq<char>, j: int)
    requires
        spec_all_digits(s),
        0 <= j <= s.len(),
    ensures
        spec_digits_val(s.take(j)) <= spec_digits_val(s),
    decreases s.len() - j,
{
    if j == s.len() {
        assert(s.take(j) =~= s);
    } else {
        let tj1 = s.take(j + 1);
        assert(tj1.drop_last() =~= s.take(j));
        assert(tj1.last() == s[j]);
        assert(spec_all_digits(s.take(j)));
        lemma_digits_val_nonneg(s.take(j));
        assert(spec_digits_val(tj1) == spec_digits_val(s.take(j)) * 10 + spec_digit_val(s[j]));
        assert(spec_digits_val(s.take(j)) * 10 >= spec_digits_val(s.take(j)));
        lemma_digits_val_prefix(s, j + 1);
    }
}

/// Parse an unsigned decimal integer: an optional leading `'+'`, then one
/// or more digits; `None` on any other shape or on overflow.
pub fn parse_usize(s: &str) -> (r: Option<usize>)
    ensures
        r == spec_parse_usize(s@),
{
    let n = s.unicode_len();
    let start: usize = if n > 0 && s.get_char(0) == '+' {
        1
    } else {
        0
    };
    let ghost t = spec_trim_plus(s@);
    assert(t =~= s@.skip(start as int));
    if start == n {
        return None;
    }
    let mut acc: usize = 0;
    let mut i: usize = start;
    while i < n
        invariant
            n == s@.len(),
            start <= i <= n,
            start < n,
            t == spec_trim_plus(s@),
            t == s@.skip(start as int),
            acc as int == spec_digits_val(t.take(i - start)),
            forall|k: int| 0 <= k < i - start ==> spec_is_digit(#[trigger] t[k]),
        decreases n - i,
    {
        let c = s.get_char(i);
        let v = c as u32;
        if v < 48 || v > 57 {
            proof {
                assert(t[i - start] == s@[i as int]);
                assert(!spec_is_digit(t[i - start]));
                assert(!spec_all_digits(t));
            }
            return None;
        }
        let d = (v - 48) as usize;
        let step = acc.checked_mul(10);
        proof {
            let pre1 = t.take(i - start + 1);
            assert(pre1.drop_last() =~= t.take(i - start));
            assert(pre1.last() == t[i - start]);
            assert(t[i - start] == s@[i as int]);
        }
        match step {
            None => {
                proof {
                    assert(spec_all_digits(t.take(i - start + 1)));
                    assert(spec_digits_val(t.take(i - start + 1)) > usize::MAX);
                    if spec_all_digits(t) {
                        lemma_digits_val_prefix(t, i - start + 1);
                    }
                }
                return None;
            },
            Some(acc10) => {
                match acc10.checked_add(d) {
                    None => {
                        proof {
                            assert(spec_all_digits(t.take(i - start + 1)));
                            assert(spec_digits_val(t.take(i - start + 1)) > usize::MAX);
                            if spec_all_digits(t) {
                                lemma_digits_val_prefix(t, i - start + 1);
                            }
                        }
                        return None;
                    },
                    Some(next) => {
                        acc = next;
                    },
                }
            },
        }
        i = i + 1;
    }
    assert(t.take(n - start) =~= t);
    assert(spec_all_digits(t));
    Some(acc)
}

/// Parse an unsigned decimal integer that must fit in eight bits.
pub open spec fn spec_parse_u8(s: Seq<char>) -> Option<u8> {
    match spec_parse_usize(s) {
        Some(v) => if v <= 255 {
            Some(v as u8)
        } else {
            None
        },
        None => None,
    }
}

pub fn parse_u8(s: &str) -> (r: Option<u8>)
    ensures
        r == spec_parse_u8(s@),
{
    match parse_usize(s) {
        Some(v) => if v <= 255 {
            Some(v as u8)
        } else {
            None
        },
        None => None,
    }
}

// ---------------------------------------------------------------------------
// Boolean parsing
// ---------------------------------------------------------------------------
/// What parsing a boolean yields: exactly `"true"` or `"false"`.
pub open spec fn spec_parse_bool(s: Seq<char>) -> Option<bool> {
    if s == "true"@ {
        Some(true)
    } else if s == "false"@ {
        Some(false)
    } else {
        None
    }
}

pub fn parse_bool(s: &str) -> (r: Option<bool>)
    ensures
        r == spec_parse_bool(s@),
{
    proof {
        reveal_strlit("true");
        reveal_strlit("false");
    }
    let n = s.unicode_len();
    if n == 4 && s.get_char(0) == 't' && s.get_char(1) == 'r' && s.get_char(2) == 'u'
        && s.get_char(3) == 'e' {
        assert(s@ =~= "true"@);
        Some(true)
    } else if n == 5 && s.get_char(0) == 'f' && s.get_char(1) == 'a' && s.get_char(2) == 'l'
        && s.get_char(3) == 's' && s.get_char(4) == 'e' {
        assert(s@ =~= "false"@);
        Some(false)
    } else {
        assert(s@ != "true"@);
        assert(s@ != "false"@);
        None
    }
}

} // verus!
