use vstd::prelude::*;
use vstd::string::*;

verus! {

// Character classes used by the engine. Identifiers are canonical keys made of
// ASCII letters and digits only, so the classes are the ASCII ones.

/// Whitespace as the engine understands it: the blank characters that may
/// surround a label in exported markup.
pub open spec fn is_ws_char(c: char) -> bool {
    c == ' ' || c == '\t' || c == '\n' || c == '\r'
}

pub open spec fn is_digit_char(c: char) -> bool {
    '0' <= c && c <= '9'
}

pub open spec fn is_lower_char(c: char) -> bool {
    'a' <= c && c <= 'z'
}

pub open spec fn is_upper_char(c: char) -> bool {
    'A' <= c && c <= 'Z'
}

/// A character that may appear in a canonical identifier before lowercasing.
pub open spec fn is_ident_char(c: char) -> bool {
    is_digit_char(c) || is_lower_char(c) || is_upper_char(c)
}

/// Lowercase one character: upper-case letters move down by the distance
/// between 'A' and 'a'; everything else stays.
pub open spec fn lower_char(c: char) -> char {
    if is_upper_char(c) {
        ((c as u32) + 32) as char
    } else {
        c
    }
}

/// The canonical identifier derived from raw label text: drop every character
/// that is not a letter or digit (whitespace among them), lowercase the rest.
pub open spec fn normalize_seq(s: Seq<char>) -> Seq<char>
    decreases s.len(),
{
    if s.len() == 0 {
        Seq::empty()
    } else if is_ident_char(s.last()) {
        normalize_seq(s.drop_last()).push(lower_char(s.last()))
    } else {
        normalize_seq(s.drop_last())
    }
}

/// Lowercasing an identifier character gives a lowercase letter or a digit,
/// and lowercasing again changes nothing.
pub proof fn lemma_lower_char(c: char)
    requires
        is_ident_char(c),
    ensures
        is_digit_char(lower_char(c)) || is_lower_char(lower_char(c)),
        lower_char(lower_char(c)) == lower_char(c),
{
    if is_upper_char(c) {
        assert(65 <= c as u32 && c as u32 <= 90);
        assert(lower_char(c) as u32 == c as u32 + 32);
    }
}

/// Every character of a normalized identifier is a lowercase letter or digit.
pub proof fn lemma_normalize_chars(s: Seq<char>)
    ensures
        forall|i: int|
            0 <= i < normalize_seq(s).len() ==> is_digit_char(#[trigger] normalize_seq(s)[i])
                || is_lower_char(normalize_seq(s)[i]),
    decreases s.len(),
{
    if s.len() != 0 {
        lemma_normalize_chars(s.drop_last());
        let pre = normalize_seq(s.drop_last());
        if is_ident_char(s.last()) {
            lemma_lower_char(s.last());
            let c = lower_char(s.last());
            assert(normalize_seq(s) == pre.push(c));
            assert forall|i: int| 0 <= i < normalize_seq(s).len() implies is_digit_char(
                #[trigger] normalize_seq(s)[i],
            ) || is_lower_char(normalize_seq(s)[i]) by {
                if i < pre.len() {
                    assert(normalize_seq(s)[i] == pre[i]);
                } else {
                    assert(normalize_seq(s)[i] == c);
                }
            }
        }
    }
}

/// Normalization is idempotent: normalizing a canonical identifier gives it back.
pub proof fn lemma_normalize_idempotent(s: Seq<char>)
    ensures
        normalize_seq(normalize_seq(s)) == normalize_seq(s),
    decreases s.len(),
{
    if s.len() == 0 {
    } else {
        lemma_normalize_idempotent(s.drop_last());
        if is_ident_char(s.last()) {
            lemma_lower_char(s.last());
            let c = lower_char(s.last());
            let pre = normalize_seq(s.drop_last());
            assert(pre.push(c).drop_last() =~= pre);
            assert(pre.push(c).last() == c);
        }
    }
}

/// Leading whitespace removed.
pub open spec fn trim_start_seq(s: Seq<char>) -> Seq<char>
    decreases s.len(),
{
    if s.len() == 0 {
        s
    } else if is_ws_char(s[0]) {
        trim_start_seq(s.drop_first())
    } else {
        s
    }
}

/// Trailing whitespace removed.
pub open spec fn trim_end_seq(s: Seq<char>) -> Seq<char>
    decreases s.len(),
{
    if s.len() == 0 {
        s
    } else if is_ws_char(s.last()) {
        trim_end_seq(s.drop_last())
    } else {
        s
    }
}

/// Label text with surrounding whitespace removed.
pub open spec fn trim_seq(s: Seq<char>) -> Seq<char> {
    trim_start_seq(trim_end_seq(s))
}

fn is_ws(c: char) -> (r: bool)
    ensures
        r == is_ws_char(c),
{
    c == ' ' || c == '\t' || c == '\n' || c == '\r'
}

fn is_ident(c: char) -> (r: bool)
    ensures
        r == is_ident_char(c),
{
    ('0' <= c && c <= '9') || ('a' <= c && c <= 'z') || ('A' <= c && c <= 'Z')
}

fn to_lower(c: char) -> (r: char)
    ensures
        r == lower_char(c),
{
    if 'A' <= c && c <= 'Z' {
        (((c as u8) + 32) as char)
    } else {
        c
    }
}

/// Relies on String::push: appends exactly the one character to the string.
#[verifier::external_body]
fn push_char(s: &mut String, c: char)
    ensures
        final(s)@ == old(s)@.push(c),
{
    s.push(c);
}

/// Canonicalize raw label text into an identifier: keep only letters and
/// digits, lowercased. Empty input gives the empty identifier.
pub fn normalize(s: &str) -> (r: String)
    ensures
        r@ == normalize_seq(s@),
{
    let n = s.unicode_len();
    let mut out = String::new();
    for i in 0..n
        invariant
            n == s@.len(),
            out@ == normalize_seq(s@.take(i as int)),
    {
        let c = s.get_char(i);
        proof {
            assert(s@.take(i + 1).drop_last() =~= s@.take(i as int));
            assert(s@.take(i + 1).last() == s@[i as int]);
        }
        if is_ident(c) {
            push_char(&mut out, to_lower(c));
        }
    }
    proof {
        assert(s@.take(n as int) =~= s@);
    }
    out
}

proof fn lemma_trim_start_skip(s: Seq<char>, a: int)
    requires
        0 <= a <= s.len(),
        forall|k: int| 0 <= k < a ==> is_ws_char(s[k]),
        a < s.len() ==> !is_ws_char(s[a]),
    ensures
        trim_start_seq(s) =~= s.skip(a),
    decreases a,
{
    if a == 0 {
        if s.len() > 0 {
            assert(trim_start_seq(s) == s);
        }
        assert(s.skip(0) =~= s);
    } else {
        assert(is_ws_char(s[0]));
        let t = s.drop_first();
        assert(forall|k: int| 0 <= k < a - 1 ==> is_ws_char(#[trigger] t[k]));
        lemma_trim_start_skip(t, a - 1);
        assert(t.skip(a - 1) =~= s.skip(a));
    }
}

proof fn lemma_trim_end_take(s: Seq<char>, b: int)
    requires
        0 <= b <= s.len(),
        forall|k: int| b <= k < s.len() ==> is_ws_char(s[k]),
        b > 0 ==> !is_ws_char(s[b - 1]),
    ensures
        trim_end_seq(s) =~= s.take(b),
    decreases s.len() - b,
{
    if b == s.len() {
        if b > 0 {
            assert(trim_end_seq(s) == s);
        }
        assert(s.take(b) =~= s);
    } else {
        assert(is_ws_char(s.last()));
        let t = s.drop_last();
        lemma_trim_end_take(t, b);
        assert(t.take(b) =~= s.take(b));
    }
}

/// Remove leading and trailing whitespace from label text.
pub fn trim(s: &str) -> (r: String)
    ensures
        r@ == trim_seq(s@),
{
    let n = s.unicode_len();
    let mut b: usize = n;
    while b > 0 && is_ws(s.get_char(b - 1))
        invariant
            n == s@.len(),
            b <= n,
            forall|k: int| b <= k < n ==> is_ws_char(s@[k]),
        decreases b,
    {
        b = b - 1;
    }
    let mut a: usize = 0;
    while a < b && is_ws(s.get_char(a))
        invariant
            n == s@.len(),
            a <= b <= n,
            forall|k: int| 0 <= k < a ==> is_ws_char(s@[k]),
        decreases b - a,
    {
        a = a + 1;
    }
    proof {
        lemma_trim_end_take(s@, b as int);
        let t = s@.take(b as int);
        lemma_trim_start_skip(t, a as int);
        assert(t.skip(a as int) =~= s@.subrange(a as int, b as int));
    }
    let r = s.substring_char(a, b);
    r.to_owned()
}

} // verus!
