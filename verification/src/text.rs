//! Character-level text utilities shared by the codec and the query layer:
//! conversions between `String` and character vectors, uppercasing, and a
//! total lexicographic order on character sequences.

use vstd::prelude::*;

verus! {

/// The uppercased form of a character sequence, as `str::to_uppercase`
/// computes it. Unicode case mapping is far too large to restate here, so the
/// result is only named; the facts callers rely on are stated on `to_upper`.
pub uninterp spec fn upper_of(s: Seq<char>) -> Seq<char>;

/// ASCII-only case folding: the lower-case letters a-z map to A-Z and every
/// other character is unchanged.
pub open spec fn ascii_upper_char(c: char) -> char {
    if 'a' <= c <= 'z' {
        ((c as u8) - 0x20) as char
    } else {
        c
    }
}

/// Whether every character of the sequence is ASCII.
pub open spec fn all_ascii(s: Seq<char>) -> bool {
    forall|i: int| 0 <= i < s.len() ==> #[trigger] (s[i] as u32) < 128
}

/// Relies on `str::to_uppercase`: the result depends on the characters alone;
/// an empty string stays empty, and on ASCII input the mapping is exactly
/// the per-character A-Z fold.
#[verifier::external_body]
pub fn to_upper(s: &str) -> (r: String)
    ensures
        r@ == upper_of(s@),
        s@.len() == 0 ==> r@.len() == 0,
        all_ascii(s@) ==> r@ == s@.map_values(|c: char| ascii_upper_char(c)),
{
    s.to_uppercase()
}

/// Relies on `String::push`: appends exactly one character.
#[verifier::external_body]
pub fn push_char(s: &mut String, c: char)
    ensures
        final(s)@ == old(s)@.push(c),
{
    s.push(c);
}

/// Copies the characters of a string slice into a vector.
pub fn str_to_chars(s: &str) -> (v: Vec<char>)
    ensures
        v@ == s@,
{
    let n = s.unicode_len();
    let mut v: Vec<char> = Vec::new();
    let mut i: usize = 0;
    while i < n
        invariant
            0 <= i <= n,
            n == s@.len(),
            v@ == s@.take(i as int),
        decreases n - i,
    {
        v.push(s.get_char(i));
        i += 1;
        proof {
            assert(v@ =~= s@.take(i as int));
        }
    }
    proof {
        assert(s@.take(n as int) =~= s@);
    }
    v
}

/// Builds a `String` from a sequence of characters.
pub fn chars_to_string(v: &Vec<char>) -> (s: String)
    ensures
        s@ == v@,
{
    let mut s = String::new();
    let mut i: usize = 0;
    while i < v.len()
        invariant
            0 <= i <= v.len(),
            s@ == v@.take(i as int),
        decreases v.len() - i,
    {
        push_char(&mut s, v[i]);
        i += 1;
        proof {
            assert(s@ =~= v@.take(i as int));
        }
    }
    proof {
        assert(v@.take(v.len() as int) =~= v@);
    }
    s
}

/// Equality of two string slices, decided character by character.
pub fn str_eq(a: &str, b: &str) -> (r: bool)
    ensures
        r == (a@ == b@),
{
    let x: String = a.to_owned();
    let y: String = b.to_owned();
    x == y
}

/// Lexicographic "less than or equal" on character sequences, comparing by
/// Unicode code point. The empty sequence precedes everything.
pub open spec fn chars_le(a: Seq<char>, b: Seq<char>) -> bool
    decreases a.len(),
{
    if a.len() == 0 {
        true
    } else if b.len() == 0 {
        false
    } else if a[0] == b[0] {
        chars_le(a.drop_first(), b.drop_first())
    } else {
        (a[0] as u32) < (b[0] as u32)
    }
}

/// Strict form of `chars_le`.
pub open spec fn chars_lt(a: Seq<char>, b: Seq<char>) -> bool {
    chars_le(a, b) && a != b
}

pub proof fn lemma_chars_le_refl(a: Seq<char>)
    ensures
        chars_le(a, a),
    decreases a.len(),
{
    if a.len() > 0 {
        lemma_chars_le_refl(a.drop_first());
    }
}

pub proof fn lemma_chars_le_total(a: Seq<char>, b: Seq<char>)
    ensures
        chars_le(a, b) || chars_le(b, a),
    decreases a.len(),
{
    if a.len() > 0 && b.len() > 0 {
        if a[0] == b[0] {
            lemma_chars_le_total(a.drop_first(), b.drop_first());
        } else {
            if (a[0] as u32) == (b[0] as u32) {
                vstd::utf8::char_u32_cast(a[0], a[0] as u32);
                vstd::utf8::char_u32_cast(b[0], b[0] as u32);
            }
        }
    }
}

pub proof fn lemma_chars_le_antisymm(a: Seq<char>, b: Seq<char>)
    requires
        chars_le(a, b),
        chars_le(b, a),
    ensures
        a == b,
    decreases a.len(),
{
    if a.len() == 0 {
        assert(b.len() == 0);
        assert(a =~= b);
    } else {
        assert(b.len() > 0);
        assert(a[0] == b[0]);
        lemma_chars_le_antisymm(a.drop_first(), b.drop_first());
        assert(a.drop_first().len() == b.drop_first().len());
        assert(a.len() == b.len());
        assert forall|i: int| 0 <= i < a.len() implies a[i] == b[i] by {
            if i >= 1 {
                assert(a[i] == a.drop_first()[i - 1]);
                assert(b[i] == b.drop_first()[i - 1]);
            }
        }
        assert(a =~= b);
    }
}

pub proof fn lemma_chars_le_trans(a: Seq<char>, b: Seq<char>, c: Seq<char>)
    requires
        chars_le(a, b),
        chars_le(b, c),
    ensures
        chars_le(a, c),
    decreases a.len(),
{
    if a.len() > 0 && b.len() > 0 && c.len() > 0 {
        if a[0] == b[0] && b[0] == c[0] {
            lemma_chars_le_trans(a.drop_first(), b.drop_first(), c.drop_first());
        }
    }
}

/// Decides `chars_le` on two string slices.
pub fn str_le(a: &str, b: &str) -> (r: bool)
    ensures
        r == chars_le(a@, b@),
    decreases a@.len(),
{
    let alen = a.unicode_len();
    let blen = b.unicode_len();
    if alen == 0 {
        true
    } else if blen == 0 {
        false
    } else {
        let ca = a.get_char(0);
        let cb = b.get_char(0);
        if ca == cb {
            let ra = a.substring_char(1, alen);
            let rb = b.substring_char(1, blen);
            proof {
                assert(ra@ =~= a@.drop_first());
                assert(rb@ =~= b@.drop_first());
            }
            str_le(ra, rb)
        } else {
            (ca as u32) < (cb as u32)
        }
    }
}

/// Finds the first occurrence of `c` in `s`.
pub fn find_char_in(s: &str, c: char) -> (r: Option<usize>)
    ensures
        match r {
            Some(i) => i < s@.len() && s@[i as int] == c && find_char(s@, c) == i as int,
            None => find_char(s@, c) < 0,
        },
{
    let n = s.unicode_len();
    let mut i: usize = 0;
    while i < n
        invariant
            0 <= i <= n,
            n == s@.len(),
            forall|j: int| 0 <= j < i ==> s@[j] != c,
        decreases n - i,
    {
        if s.get_char(i) == c {
            proof {
                lemma_find_char_at(s@, c, i as int);
            }
            return Some(i);
        }
        i += 1;
    }
    proof {
        lemma_find_char_none(s@, c);
    }
    None
}

/// Index of the first occurrence of `c` in `s`, or -1.
pub open spec fn find_char(s: Seq<char>, c: char) -> int
    decreases s.len(),
{
    if s.len() == 0 {
        -1
    } else if s[0] == c {
        0
    } else if find_char(s.drop_first(), c) < 0 {
        -1
    } else {
        find_char(s.drop_first(), c) + 1
    }
}

pub proof fn lemma_find_char_none(s: Seq<char>, c: char)
    requires
        forall|i: int| 0 <= i < s.len() ==> s[i] != c,
    ensures
        find_char(s, c) == -1,
    decreases s.len(),
{
    if s.len() > 0 {
        lemma_find_char_none(s.drop_first(), c);
    }
}

pub proof fn lemma_find_char_at(s: Seq<char>, c: char, k: int)
    requires
        0 <= k < s.len(),
        s[k] == c,
        forall|i: int| 0 <= i < k ==> s[i] != c,
    ensures
        find_char(s, c) == k,
    decreases s.len(),
{
    if k > 0 {
        lemma_find_char_at(s.drop_first(), c, k - 1);
    }
}

pub proof fn lemma_find_char_prepend(a: Seq<char>, b: Seq<char>, c: char)
    requires
        forall|i: int| 0 <= i < a.len() ==> a[i] != c,
    ensures
        find_char(a + b, c) == if find_char(b, c) < 0 {
            -1int
        } else {
            a.len() + find_char(b, c)
        },
    decreases a.len(),
{
    if a.len() == 0 {
        assert(a + b =~= b);
    } else {
        assert((a + b)[0] == a[0]);
        assert((a + b).drop_first() =~= a.drop_first() + b);
        lemma_find_char_prepend(a.drop_first(), b, c);
    }
}

/// Whitespace that separates tokens within one journal line.
pub open spec fn is_ws(c: char) -> bool {
    c == ' ' || c == '\t' || c == '\r'
}

/// Decides `is_ws`.
pub fn char_is_ws(c: char) -> (r: bool)
    ensures
        r == is_ws(c),
{
    c == ' ' || c == '\t' || c == '\r'
}

/// The length of the leading run of non-whitespace characters.
pub open spec fn token_end(s: Seq<char>) -> int
    decreases s.len(),
{
    if s.len() == 0 || is_ws(s[0]) {
        0
    } else {
        1 + token_end(s.drop_first())
    }
}

pub proof fn lemma_token_end_bounds(s: Seq<char>)
    ensures
        0 <= token_end(s) <= s.len(),
        s.len() > 0 && !is_ws(s[0]) ==> token_end(s) >= 1,
        forall|i: int| 0 <= i < token_end(s) ==> !is_ws(#[trigger] s[i]),
        token_end(s) < s.len() ==> is_ws(s[token_end(s)]),
    decreases s.len(),
{
    if s.len() > 0 && !is_ws(s[0]) {
        let t = s.drop_first();
        lemma_token_end_bounds(t);
        assert forall|i: int| 0 <= i < token_end(s) implies !is_ws(#[trigger] s[i]) by {
            if i >= 1 {
                assert(s[i] == t[i - 1]);
            }
        }
        if token_end(s) < s.len() {
            assert(s[token_end(s)] == t[token_end(s) - 1]);
        }
    }
}

/// The index where the leading run of non-whitespace ends, given that the
/// run is delimited at `k`.
pub proof fn lemma_token_end_at(s: Seq<char>, k: int)
    requires
        0 <= k <= s.len(),
        forall|i: int| 0 <= i < k ==> !is_ws(#[trigger] s[i]),
        k == s.len() || is_ws(s[k]),
    ensures
        token_end(s) == k,
    decreases s.len(),
{
    if s.len() > 0 && !is_ws(s[0]) {
        assert(k >= 1);
        let t = s.drop_first();
        assert(forall|i: int| 0 <= i < t.len() ==> t[i] == #[trigger] s[i + 1]);
        lemma_token_end_at(t, k - 1);
    }
}

/// The whitespace-separated tokens of a line, in order.
pub open spec fn tokens_of(s: Seq<char>) -> Seq<Seq<char>>
    decreases s.len(),
    via tokens_of_decreases
{
    if s.len() == 0 {
        Seq::empty()
    } else if is_ws(s[0]) {
        tokens_of(s.drop_first())
    } else {
        seq![s.take(token_end(s))] + tokens_of(s.skip(token_end(s)))
    }
}

#[via_fn]
proof fn tokens_of_decreases(s: Seq<char>) {
    if s.len() > 0 && !is_ws(s[0]) {
        lemma_token_end_bounds(s);
    }
}

/// Every token is non-empty and free of whitespace.
pub proof fn lemma_tokens_ok(s: Seq<char>)
    ensures
        forall|t: int|
            0 <= t < tokens_of(s).len() ==> {
                let tok = #[trigger] tokens_of(s)[t];
                tok.len() > 0 && forall|i: int| 0 <= i < tok.len() ==> !is_ws(#[trigger] tok[i])
            },
    decreases s.len(),
{
    if s.len() == 0 {
    } else if is_ws(s[0]) {
        lemma_tokens_ok(s.drop_first());
        assert forall|t: int|
            0 <= t < tokens_of(s).len() implies {
            let tok = #[trigger] tokens_of(s)[t];
            tok.len() > 0 && forall|i: int| 0 <= i < tok.len() ==> !is_ws(#[trigger] tok[i])
        } by {
            assert(tokens_of(s)[t] == tokens_of(s.drop_first())[t]);
        }
    } else {
        lemma_token_end_bounds(s);
        let rest = s.skip(token_end(s));
        lemma_tokens_ok(rest);
        let head = s.take(token_end(s));
        assert(head.len() > 0);
        assert forall|i: int| 0 <= i < head.len() implies !is_ws(#[trigger] head[i]) by {
            assert(head[i] == s[i]);
        }
        assert forall|t: int|
            0 <= t < tokens_of(s).len() implies {
            let tok = #[trigger] tokens_of(s)[t];
            tok.len() > 0 && forall|i: int| 0 <= i < tok.len() ==> !is_ws(#[trigger] tok[i])
        } by {
            if t == 0 {
                assert(tokens_of(s)[0] == head);
            } else {
                assert(tokens_of(s)[t] == tokens_of(rest)[t - 1]);
            }
        }
    }
}

pub proof fn lemma_find_char_bounds(s: Seq<char>, c: char)
    ensures
        -1 <= find_char(s, c) < s.len(),
    decreases s.len(),
{
    if s.len() > 0 {
        lemma_find_char_bounds(s.drop_first(), c);
    }
}

/// A leading token followed by a delimiter (or the end) is split off whole.
pub proof fn lemma_tokens_token_then(tok: Seq<char>, rest: Seq<char>)
    requires
        tok.len() > 0,
        forall|i: int| 0 <= i < tok.len() ==> !is_ws(#[trigger] tok[i]),
        rest.len() == 0 || is_ws(rest[0]),
    ensures
        tokens_of(tok + rest) == seq![tok] + tokens_of(rest),
{
    let s = tok + rest;
    assert(forall|i: int| 0 <= i < tok.len() ==> s[i] == #[trigger] tok[i]);
    assert(rest.len() > 0 ==> s[tok.len() as int] == rest[0]);
    lemma_token_end_at(s, tok.len() as int);
    assert(s.take(tok.len() as int) =~= tok);
    assert(s.skip(tok.len() as int) =~= rest);
    assert(!is_ws(s[0]));
}

/// A leading whitespace character changes no token.
pub proof fn lemma_tokens_space_then(rest: Seq<char>)
    ensures
        tokens_of(seq![' '] + rest) == tokens_of(rest),
{
    let s = seq![' '] + rest;
    assert(is_ws(s[0]));
    assert(s.drop_first() =~= rest);
}

/// The texts of a vector of token strings.
pub open spec fn strs_view(v: Seq<String>) -> Seq<Seq<char>> {
    v.map_values(|x: String| x@)
}

/// Splits a line into its whitespace-separated tokens.
pub fn tokenize(line: &str) -> (r: Vec<String>)
    ensures
        strs_view(r@) == tokens_of(line@),
{
    let cv = str_to_chars(line);
    let r = tokenize_from(&cv, 0);
    proof {
        assert(cv@.skip(0) =~= line@);
    }
    r
}

fn tokenize_from(v: &Vec<char>, from: usize) -> (r: Vec<String>)
    requires
        from <= v@.len(),
    ensures
        strs_view(r@) == tokens_of(v@.skip(from as int)),
    decreases v@.len() - from,
{
    let ghost s = v@.skip(from as int);
    if from >= v.len() {
        let r: Vec<String> = Vec::new();
        proof {
            assert(s =~= Seq::<char>::empty());
            assert(strs_view(r@) =~= tokens_of(s));
        }
        return r;
    }
    if char_is_ws(v[from]) {
        proof {
            assert(s[0] == v@[from as int]);
            assert(s.drop_first() =~= v@.skip(from + 1));
        }
        return tokenize_from(v, from + 1);
    }
    // scan to the end of the token
    let mut j: usize = from;
    while j < v.len()
        invariant_except_break
            from <= j <= v@.len(),
            forall|i: int| from <= i < j ==> !is_ws(#[trigger] v@[i]),
        ensures
            from <= j <= v@.len(),
            forall|i: int| from <= i < j ==> !is_ws(#[trigger] v@[i]),
            j < v@.len() ==> is_ws(v@[j as int]),
        decreases v@.len() - j,
    {
        if char_is_ws(v[j]) {
            break;
        }
        j += 1;
    }
    proof {
        assert(forall|i: int| 0 <= i < s.len() ==> s[i] == #[trigger] v@[from + i]);
        lemma_token_end_at(s, j - from);
    }
    let mut tok_chars: Vec<char> = Vec::new();
    let mut i: usize = from;
    while i < j
        invariant
            from <= i <= j <= v@.len(),
            tok_chars@ == v@.subrange(from as int, i as int),
        decreases j - i,
    {
        tok_chars.push(v[i]);
        proof {
            assert(tok_chars@ =~= v@.subrange(from as int, i + 1));
        }
        i += 1;
    }
    let tok = chars_to_string(&tok_chars);
    let rest = tokenize_from(v, j);
    let mut r: Vec<String> = Vec::new();
    r.push(tok);
    let mut t: usize = 0;
    while t < rest.len()
        invariant
            0 <= t <= rest@.len(),
            r@.len() == t + 1,
            r@[0]@ == v@.subrange(from as int, j as int),
            forall|x: int| 0 <= x < t ==> r@[x + 1] == #[trigger] rest@[x],
        decreases rest@.len() - t,
    {
        r.push(rest[t].clone());
        t += 1;
    }
    proof {
        assert(s.take(token_end(s)) =~= v@.subrange(from as int, j as int));
        assert(s.skip(token_end(s)) =~= v@.skip(j as int));
        assert(strs_view(r@) =~= seq![s.take(token_end(s))] + tokens_of(s.skip(token_end(s))));
    }
    r
}

} // verus!
