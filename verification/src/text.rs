//! Character-level helpers shared by the parsers: ASCII classification and
//! case mapping over `char`, and conversions between strings and character
//! vectors.
use vstd::prelude::*;
use crate::lookup::{is_last_match, last_match, lemma_last_match_is, lemma_last_match_none, lemma_last_match_range};

verus! {

/// ASCII whitespace as the HTML and Infra standards define it: TAB, LF, FF,
/// CR and SPACE.
pub open spec fn is_ascii_whitespace(c: char) -> bool {
    c == ' ' || c == '\t' || c == '\n' || c == '\x0C' || c == '\r'
}

pub open spec fn is_ascii_digit(c: char) -> bool {
    '0' <= c && c <= '9'
}

pub open spec fn is_ascii_upper(c: char) -> bool {
    'A' <= c && c <= 'Z'
}

/// The ASCII lowercase of a character: upper-case ASCII letters map to their
/// lower-case counterparts, every other character to itself.
pub open spec fn ascii_lower(c: char) -> char {
    if is_ascii_upper(c) {
        ((c as u32) + 32) as char
    } else {
        c
    }
}

pub open spec fn ascii_lower_seq(s: Seq<char>) -> Seq<char> {
    s.map_values(|c: char| ascii_lower(c))
}

/// Two strings are an ASCII case-insensitive match.
pub open spec fn eq_ignore_ascii_case(a: Seq<char>, b: Seq<char>) -> bool {
    ascii_lower_seq(a) == ascii_lower_seq(b)
}

pub open spec fn whitespace_pred() -> spec_fn(char) -> bool {
    |c: char| is_ascii_whitespace(c)
}

pub open spec fn digit_pred() -> spec_fn(char) -> bool {
    |c: char| is_ascii_digit(c)
}

/// The numeric value of an ASCII digit.
pub open spec fn digit_value(c: char) -> nat {
    ((c as u32) - ('0' as u32)) as nat
}

/// The end of the run of characters satisfying `p` that starts at `i`.
pub open spec fn run_end(s: Seq<char>, i: int, p: spec_fn(char) -> bool) -> int
    decreases s.len() - i,
{
    if 0 <= i < s.len() && p(s[i]) {
        run_end(s, i + 1, p)
    } else {
        i
    }
}

pub proof fn lemma_run_end_bounds(s: Seq<char>, i: int, p: spec_fn(char) -> bool)
    requires
        0 <= i <= s.len(),
    ensures
        i <= run_end(s, i, p) <= s.len(),
        forall|k: int| i <= k < run_end(s, i, p) ==> p(#[trigger] s[k]),
        run_end(s, i, p) < s.len() ==> !p(s[run_end(s, i, p)]),
    decreases s.len() - i,
{
    if i < s.len() && p(s[i]) {
        lemma_run_end_bounds(s, i + 1, p);
    }
}

pub fn is_ascii_whitespace_char(c: char) -> (b: bool)
    ensures
        b == is_ascii_whitespace(c),
{
    c == ' ' || c == '\t' || c == '\n' || c == '\x0C' || c == '\r'
}

pub fn is_ascii_digit_char(c: char) -> (b: bool)
    ensures
        b == is_ascii_digit(c),
{
    '0' <= c && c <= '9'
}

pub fn ascii_lower_char(c: char) -> (l: char)
    ensures
        l == ascii_lower(c),
{
    if 'A' <= c && c <= 'Z' {
        let code: u8 = (c as u8) + 32;
        code as char
    } else {
        c
    }
}

/// The characters of a string slice, in order.
pub fn chars_of(s: &str) -> (out: Vec<char>)
    ensures
        out@ == s@,
{
    let mut out: Vec<char> = Vec::new();
    for c in it: s.chars()
        invariant
            out@ == it.seq().take(it.index() as int),
    {
        out.push(c);
    }
    out
}

/// Calls `String::push`: the string gains the character at its end.
#[verifier::external_body]
fn push_char(s: &mut String, c: char)
    ensures
        final(s)@ == old(s)@.push(c),
{
    s.push(c);
}

/// The string made of the characters of a sequence.
pub fn string_from_chars(chars: &[char]) -> (s: String)
    ensures
        s@ == chars@,
{
    let mut s = String::new();
    let mut i: usize = 0;
    while i < chars.len()
        invariant
            i <= chars@.len(),
            s@ == chars@.take(i as int),
        decreases chars@.len() - i,
    {
        push_char(&mut s, chars[i]);
        i = i + 1;
        assert(s@ =~= chars@.take(i as int));
    }
    assert(chars@.take(i as int) =~= chars@);
    s
}

/// Whether two character sequences are equal.
pub fn chars_eq(a: &[char], b: &[char]) -> (r: bool)
    ensures
        r == (a@ == b@),
{
    if a.len() != b.len() {
        return false;
    }
    let mut i: usize = 0;
    while i < a.len()
        invariant
            a@.len() == b@.len(),
            i <= a@.len(),
            forall|k: int| 0 <= k < i ==> a@[k] == b@[k],
        decreases a@.len() - i,
    {
        if a[i] != b[i] {
            return false;
        }
        i = i + 1;
    }
    assert(a@ =~= b@);
    true
}

/// Whether a string equals the given characters.
pub fn str_eq(a: &str, b: &str) -> (r: bool)
    ensures
        r == (a@ == b@),
{
    let x = chars_of(a);
    let y = chars_of(b);
    chars_eq(x.as_slice(), y.as_slice())
}

/// Whether two character sequences are an ASCII case-insensitive match.
pub fn chars_eq_ignore_ascii_case(a: &[char], b: &[char]) -> (r: bool)
    ensures
        r == eq_ignore_ascii_case(a@, b@),
{
    if a.len() != b.len() {
        assert(ascii_lower_seq(a@).len() != ascii_lower_seq(b@).len());
        return false;
    }
    let mut i: usize = 0;
    while i < a.len()
        invariant
            a@.len() == b@.len(),
            i <= a@.len(),
            forall|k: int| 0 <= k < i ==> ascii_lower(a@[k]) == ascii_lower(b@[k]),
        decreases a@.len() - i,
    {
        if ascii_lower_char(a[i]) != ascii_lower_char(b[i]) {
            assert(ascii_lower_seq(a@)[i as int] != ascii_lower_seq(b@)[i as int]);
            return false;
        }
        i = i + 1;
    }
    assert(ascii_lower_seq(a@) =~= ascii_lower_seq(b@));
    true
}

/// Whether a string is an ASCII case-insensitive match for another.
pub fn str_eq_ignore_ascii_case(a: &str, b: &str) -> (r: bool)
    ensures
        r == eq_ignore_ascii_case(a@, b@),
{
    let x = chars_of(a);
    let y = chars_of(b);
    chars_eq_ignore_ascii_case(x.as_slice(), y.as_slice())
}

/// The ASCII lowercase of a character sequence.
pub fn to_ascii_lowercase(s: &[char]) -> (out: Vec<char>)
    ensures
        out@ == ascii_lower_seq(s@),
{
    let mut out: Vec<char> = Vec::new();
    let mut i: usize = 0;
    while i < s.len()
        invariant
            i <= s@.len(),
            out@ == ascii_lower_seq(s@.take(i as int)),
        decreases s@.len() - i,
    {
        let l = ascii_lower_char(s[i]);
        out.push(l);
        i = i + 1;
        assert(out@ =~= ascii_lower_seq(s@.take(i as int)));
    }
    assert(s@.take(i as int) =~= s@);
    out
}


pub open spec fn non_whitespace_pred() -> spec_fn(char) -> bool {
    |c: char| !is_ascii_whitespace(c)
}

/// Runs are found the same in a suffix as in the whole.
pub proof fn lemma_run_end_shift(s: Seq<char>, i: int, k: int, p: spec_fn(char) -> bool)
    requires
        0 <= i <= k <= s.len(),
    ensures
        run_end(s.subrange(i, s.len() as int), k - i, p) == run_end(s, k, p) - i,
    decreases s.len() - k,
{
    let t = s.subrange(i, s.len() as int);
    if k < s.len() && p(s[k]) {
        assert(t[k - i] == s[k]);
        lemma_run_end_shift(s, i, k + 1, p);
    }
}

/// The tokens of a string split on ASCII whitespace, in order.
pub open spec fn ascii_tokens(s: Seq<char>) -> Seq<Seq<char>>
    decreases s.len(),
{
    let start = run_end(s, 0, whitespace_pred());
    if start < 0 || start >= s.len() {
        Seq::empty()
    } else {
        let end = run_end(s, start, non_whitespace_pred());
        if end <= start || end > s.len() {
            Seq::empty()
        } else {
            seq![s.subrange(start, end)] + ascii_tokens(s.subrange(end, s.len() as int))
        }
    }
}

/// A string's tokens, split on ASCII whitespace.
pub fn split_ascii_whitespace(s: &[char]) -> (tokens: Vec<Vec<char>>)
    ensures
        tokens@.len() == ascii_tokens(s@).len(),
        forall|k: int| 0 <= k < tokens@.len() ==> (#[trigger] tokens@[k])@ == ascii_tokens(s@)[k],
{
    let mut tokens: Vec<Vec<char>> = Vec::new();
    let ghost mut done: Seq<Seq<char>> = Seq::empty();
    let mut i: usize = 0;
    assert(s@.subrange(0, s@.len() as int) =~= s@);
    while i < s.len()
        invariant
            i <= s@.len(),
            tokens@.len() == done.len(),
            forall|k: int| 0 <= k < tokens@.len() ==> (#[trigger] tokens@[k])@ == done[k],
            done + ascii_tokens(s@.subrange(i as int, s@.len() as int)) == ascii_tokens(s@),
        decreases s@.len() - i,
    {
        let ghost t = s@.subrange(i as int, s@.len() as int);
        let mut start = i;
        while start < s.len()
            invariant
                i <= start <= s@.len(),
                forall|k: int| i <= k < start ==> is_ascii_whitespace(#[trigger] s@[k]),
            ensures
                i <= start <= s@.len(),
                forall|k: int| i <= k < start ==> is_ascii_whitespace(#[trigger] s@[k]),
                start < s@.len() ==> !is_ascii_whitespace(s@[start as int]),
            decreases s@.len() - start,
        {
            if !is_ascii_whitespace_char(s[start]) {
                break;
            }
            start = start + 1;
        }
        proof {
            lemma_run_end_bounds(s@, i as int, whitespace_pred());
            lemma_run_end_exact(s@, i as int, start as int, whitespace_pred());
            lemma_run_end_shift(s@, i as int, i as int, whitespace_pred());
        }
        if start == s.len() {
            proof {
                assert(ascii_tokens(t) == Seq::<Seq<char>>::empty());
                assert(s@.subrange(s@.len() as int, s@.len() as int) =~= Seq::<char>::empty());
                assert(ascii_tokens(Seq::<char>::empty()) =~= Seq::<Seq<char>>::empty()) by {
                    assert(run_end(Seq::<char>::empty(), 0, whitespace_pred()) == 0);
                }
            }
            i = start;
        } else {
        let mut end = start;
        let mut token: Vec<char> = Vec::new();
        while end < s.len()
            invariant
                start <= end <= s@.len(),
                forall|k: int| start <= k < end ==> !is_ascii_whitespace(#[trigger] s@[k]),
                token@ == s@.subrange(start as int, end as int),
            ensures
                start <= end <= s@.len(),
                forall|k: int| start <= k < end ==> !is_ascii_whitespace(#[trigger] s@[k]),
                token@ == s@.subrange(start as int, end as int),
                end < s@.len() ==> is_ascii_whitespace(s@[end as int]),
            decreases s@.len() - end,
        {
            if is_ascii_whitespace_char(s[end]) {
                break;
            }
            token.push(s[end]);
            end = end + 1;
            assert(token@ =~= s@.subrange(start as int, end as int));
        }
        proof {
            lemma_run_end_bounds(s@, start as int, non_whitespace_pred());
            lemma_run_end_exact(s@, start as int, end as int, non_whitespace_pred());
            lemma_run_end_shift(s@, i as int, start as int, non_whitespace_pred());
            let st = start - i;
            let en = end - i;
            assert(run_end(t, 0, whitespace_pred()) == st);
            assert(run_end(t, st, non_whitespace_pred()) == en);
            assert(t.subrange(st, en) =~= s@.subrange(start as int, end as int));
            assert(t.subrange(en, t.len() as int) =~= s@.subrange(end as int, s@.len() as int));
            assert(ascii_tokens(t) == seq![t.subrange(st, en)] + ascii_tokens(t.subrange(en, t.len() as int)));
            done = done.push(token@);
            assert(done + ascii_tokens(s@.subrange(end as int, s@.len() as int)) =~= (done.drop_last() + ascii_tokens(t)));
        }
        tokens.push(token);
        i = end;
        }
    }
    proof {
        assert(s@.subrange(i as int, s@.len() as int) =~= Seq::<char>::empty());
        assert(run_end(Seq::<char>::empty(), 0, whitespace_pred()) == 0);
        assert(ascii_tokens(Seq::<char>::empty()) =~= Seq::<Seq<char>>::empty());
        assert(done =~= ascii_tokens(s@));
    }
    tokens
}

/// Where every character of `[i, k)` satisfies `p` and the one at `k` does
/// not (or `k` is the end), the run from `i` ends at `k`.
pub proof fn lemma_run_end_exact(s: Seq<char>, i: int, k: int, p: spec_fn(char) -> bool)
    requires
        0 <= i <= k <= s.len(),
        forall|j: int| i <= j < k ==> p(#[trigger] s[j]),
        k < s.len() ==> !p(s[k]),
    ensures
        run_end(s, i, p) == k,
    decreases k - i,
{
    if i < k {
        lemma_run_end_exact(s, i + 1, k, p);
    }
}


/// The concatenation of two strings.
pub fn concat_str(a: &str, b: &str) -> (s: String)
    ensures
        s@ == a@ + b@,
{
    let mut x = chars_of(a);
    let mut y = chars_of(b);
    x.append(&mut y);
    string_from_chars(x.as_slice())
}

/// White_Space as Unicode defines it, the whitespace that `str::trim`
/// removes.
pub open spec fn is_unicode_whitespace(c: char) -> bool {
    ('\u{9}' <= c && c <= '\u{D}') || c == ' ' || c == '\u{85}' || c == '\u{A0}' || c == '\u{1680}'
        || ('\u{2000}' <= c && c <= '\u{200A}') || c == '\u{2028}' || c == '\u{2029}' || c
        == '\u{202F}' || c == '\u{205F}' || c == '\u{3000}'
}

pub fn is_unicode_whitespace_char(c: char) -> (b: bool)
    ensures
        b == is_unicode_whitespace(c),
{
    ('\u{9}' <= c && c <= '\u{D}') || c == ' ' || c == '\u{85}' || c == '\u{A0}' || c == '\u{1680}'
        || ('\u{2000}' <= c && c <= '\u{200A}') || c == '\u{2028}' || c == '\u{2029}' || c
        == '\u{202F}' || c == '\u{205F}' || c == '\u{3000}'
}

/// The string without leading and trailing Unicode whitespace.
pub open spec fn trimmed(s: Seq<char>) -> Seq<char>
    decreases s.len(),
{
    if s.len() == 0 {
        s
    } else if is_unicode_whitespace(s[0]) {
        trimmed(s.drop_first())
    } else if is_unicode_whitespace(s.last()) {
        trimmed(s.drop_last())
    } else {
        s
    }
}

/// The characters of a string without leading and trailing whitespace, as
/// `str::trim` removes it.
pub fn trim_whitespace(s: &[char]) -> (out: Vec<char>)
    ensures
        out@ == trimmed(s@),
{
    let mut lo: usize = 0;
    let mut hi: usize = s.len();
    assert(s@.subrange(0, s@.len() as int) =~= s@);
    while lo < hi
        invariant
            lo <= hi <= s@.len(),
            trimmed(s@.subrange(lo as int, hi as int)) == trimmed(s@),
        ensures
            lo <= hi <= s@.len(),
            trimmed(s@.subrange(lo as int, hi as int)) == trimmed(s@),
            lo < hi ==> !is_unicode_whitespace(s@[lo as int]) && !is_unicode_whitespace(s@[hi - 1]),
        decreases hi - lo,
    {
        let t = Ghost(s@.subrange(lo as int, hi as int));
        if is_unicode_whitespace_char(s[lo]) {
            assert(t@.drop_first() =~= s@.subrange(lo as int + 1, hi as int));
            lo = lo + 1;
        } else if is_unicode_whitespace_char(s[hi - 1]) {
            assert(t@.drop_last() =~= s@.subrange(lo as int, hi as int - 1));
            hi = hi - 1;
        } else {
            break;
        }
    }
    let mut out: Vec<char> = Vec::new();
    let mut i: usize = lo;
    while i < hi
        invariant
            lo <= i <= hi <= s@.len(),
            out@ == s@.subrange(lo as int, i as int),
        decreases hi - i,
    {
        out.push(s[i]);
        i = i + 1;
        assert(out@ =~= s@.subrange(lo as int, i as int));
    }
    proof {
        let t = s@.subrange(lo as int, hi as int);
        if t.len() > 0 {
            assert(t[0] == s@[lo as int]);
            assert(t.last() == s@[hi - 1]);
        }
    }
    out
}


pub open spec fn is_ascii_lower(c: char) -> bool {
    'a' <= c && c <= 'z'
}

/// The ASCII uppercase of a character.
pub open spec fn ascii_upper(c: char) -> char {
    if is_ascii_lower(c) {
        ((c as u32) - 32) as char
    } else {
        c
    }
}

pub open spec fn ascii_upper_seq(s: Seq<char>) -> Seq<char> {
    s.map_values(|c: char| ascii_upper(c))
}

pub fn ascii_upper_char(c: char) -> (u: char)
    ensures
        u == ascii_upper(c),
{
    if 'a' <= c && c <= 'z' {
        let code: u8 = (c as u8) - 32;
        code as char
    } else {
        c
    }
}

/// The ASCII uppercase of a string.
pub fn str_to_ascii_uppercase(s: &str) -> (out: String)
    ensures
        out@ == ascii_upper_seq(s@),
{
    let chars = chars_of(s);
    let mut out: Vec<char> = Vec::new();
    let mut i: usize = 0;
    while i < chars.len()
        invariant
            i <= chars@.len(),
            chars@ == s@,
            out@ == ascii_upper_seq(s@.take(i as int)),
        decreases chars@.len() - i,
    {
        let u = ascii_upper_char(chars[i]);
        out.push(u);
        i = i + 1;
        assert(out@ =~= ascii_upper_seq(s@.take(i as int)));
    }
    assert(s@.take(i as int) =~= s@);
    string_from_chars(out.as_slice())
}

/// The ASCII lowercase of a string.
pub fn str_to_ascii_lowercase(s: &str) -> (out: String)
    ensures
        out@ == ascii_lower_seq(s@),
{
    let chars = chars_of(s);
    let lowered = to_ascii_lowercase(chars.as_slice());
    string_from_chars(lowered.as_slice())
}

/// The ASCII digit of a value below ten.
pub open spec fn digit_char(d: nat) -> char {
    ((d + 48) as u8) as char
}

/// The base-ten representation of a number, without leading zeros.
pub open spec fn decimal_string(n: nat) -> Seq<char>
    decreases n,
{
    if n < 10 {
        seq![digit_char(n)]
    } else {
        decimal_string(n / 10).push(digit_char(n % 10))
    }
}

fn push_decimal(out: &mut Vec<char>, n: u64)
    ensures
        final(out)@ == old(out)@ + decimal_string(n as nat),
    decreases n,
{
    if n >= 10 {
        push_decimal(out, n / 10);
    }
    let d: u64 = n % 10;
    let code: u8 = (d as u8) + 48;
    out.push(code as char);
    proof {
        if n >= 10 {
            assert(old(out)@ + decimal_string((n / 10) as nat) + seq![digit_char(d as nat)]
                =~= old(out)@ + decimal_string(n as nat));
        } else {
            assert(old(out)@ + seq![digit_char(d as nat)] =~= old(out)@ + decimal_string(n as nat));
        }
    }
}

/// The base-ten representation of a number, as `to_string` writes it.
pub fn u32_to_decimal(n: u32) -> (s: String)
    ensures
        s@ == decimal_string(n as nat),
{
    u64_to_decimal(n as u64)
}

/// The base-ten representation of a number, as `to_string` writes it.
pub fn u64_to_decimal(n: u64) -> (s: String)
    ensures
        s@ == decimal_string(n as nat),
{
    let mut out: Vec<char> = Vec::new();
    push_decimal(&mut out, n);
    assert(Seq::<char>::empty() + decimal_string(n as nat) =~= decimal_string(n as nat));
    string_from_chars(out.as_slice())
}

pub open spec fn is_char(sep: char) -> spec_fn(char) -> bool {
    |c: char| c == sep
}

/// A string split at each occurrence of a separator, empty pieces
/// included, as `str::split` with a character gives them.
pub open spec fn split_at_char(s: Seq<char>, sep: char) -> Seq<Seq<char>>
    decreases s.len(),
{
    let i = last_match(s, is_char(sep));
    if i < 0 {
        seq![s]
    } else {
        proof {
            lemma_last_match_range(s, is_char(sep));
        }
        split_at_char(s.take(i), sep).push(s.skip(i + 1))
    }
}

/// Scanning left to right: the pieces of a prefix that ends in the middle
/// of a piece are those before it and the piece begun so far.
pub proof fn lemma_split_step(s: Seq<char>, sep: char, start: int, i: int)
    requires
        0 <= start <= i <= s.len(),
        forall|k: int| start <= k < i ==> s[k] != sep,
        start == 0 || s[start - 1] == sep,
    ensures
        split_at_char(s.take(i), sep) == (if start == 0 {
            Seq::<Seq<char>>::empty()
        } else {
            split_at_char(s.take(start - 1), sep)
        }).push(s.subrange(start, i)),
{
    let t = s.take(i);
    if start == 0 {
        assert forall|k: int| 0 <= k < t.len() implies !(#[trigger] is_char(sep)(t[k])) by {
            assert(t[k] == s[k]);
        }
        lemma_last_match_none(t, is_char(sep));
        assert(t =~= s.subrange(0, i));
        assert(seq![t] =~= Seq::<Seq<char>>::empty().push(s.subrange(start, i)));
    } else {
        assert forall|k: int| start - 1 < k < t.len() implies !(#[trigger] is_char(sep)(t[k])) by {
            assert(t[k] == s[k]);
        }
        assert(t[start - 1] == s[start - 1]);
        assert(is_last_match(t, is_char(sep), start - 1));
        lemma_last_match_is(t, is_char(sep), start - 1);
        assert(t.take(start - 1) =~= s.take(start - 1));
        assert(t.skip(start) =~= s.subrange(start, i));
    }
}

/// The characters from `lo` to `hi`.
pub fn subvec(v: &Vec<char>, lo: usize, hi: usize) -> (r: Vec<char>)
    requires
        lo <= hi <= v@.len(),
    ensures
        r@ == v@.subrange(lo as int, hi as int),
{
    let mut r: Vec<char> = Vec::new();
    let mut i = lo;
    while i < hi
        invariant
            lo <= i <= hi <= v@.len(),
            r@ == v@.subrange(lo as int, i as int),
        decreases hi - i,
    {
        r.push(v[i]);
        i = i + 1;
        assert(r@ =~= v@.subrange(lo as int, i as int));
    }
    r
}

/// Splits characters at each occurrence of a separator (see
/// [`split_at_char`]).
pub fn split_chars(s: &Vec<char>, sep: char) -> (pieces: Vec<Vec<char>>)
    ensures
        pieces@.len() == split_at_char(s@, sep).len(),
        forall|k: int| 0 <= k < pieces@.len() ==> (#[trigger] pieces@[k])@ == split_at_char(s@, sep)[k],
{
    let mut pieces: Vec<Vec<char>> = Vec::new();
    let mut start: usize = 0;
    let mut i: usize = 0;
    while i < s.len()
        invariant
            start <= i <= s@.len(),
            forall|k: int| start <= k < i ==> s@[k] != sep,
            start == 0 || s@[start - 1] == sep,
            pieces@.len() == (if start == 0 {
                Seq::<Seq<char>>::empty()
            } else {
                split_at_char(s@.take(start - 1), sep)
            }).len(),
            forall|k: int|
                0 <= k < pieces@.len() ==> (#[trigger] pieces@[k])@ == (if start == 0 {
                    Seq::<Seq<char>>::empty()
                } else {
                    split_at_char(s@.take(start - 1), sep)
                })[k],
        decreases s@.len() - i,
    {
        if s[i] == sep {
            let piece = subvec(s, start, i);
            proof {
                lemma_split_step(s@, sep, start as int, i as int);
            }
            pieces.push(piece);
            start = i + 1;
        }
        i = i + 1;
    }
    let piece = subvec(s, start, s.len());
    proof {
        lemma_split_step(s@, sep, start as int, s@.len() as int);
        assert(s@.take(s@.len() as int) =~= s@);
    }
    pieces.push(piece);
    pieces
}

} // verus!
