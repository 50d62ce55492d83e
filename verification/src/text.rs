use vstd::prelude::*;

verus! {

/// Unicode `White_Space` (the property that `char::is_whitespace` and
/// `str::trim` use).
pub open spec fn is_white_space(c: char) -> bool {
    ||| ('\u{9}' <= c && c <= '\u{d}')
    ||| c == ' '
    ||| c == '\u{85}'
    ||| c == '\u{a0}'
    ||| c == '\u{1680}'
    ||| ('\u{2000}' <= c && c <= '\u{200a}')
    ||| c == '\u{2028}'
    ||| c == '\u{2029}'
    ||| c == '\u{202f}'
    ||| c == '\u{205f}'
    ||| c == '\u{3000}'
}

pub open spec fn trim_start_chars(s: Seq<char>) -> Seq<char>
    decreases s.len(),
{
    if s.len() > 0 && is_white_space(s[0]) {
        trim_start_chars(s.drop_first())
    } else {
        s
    }
}

pub open spec fn trim_end_chars(s: Seq<char>) -> Seq<char>
    decreases s.len(),
{
    if s.len() > 0 && is_white_space(s.last()) {
        trim_end_chars(s.drop_last())
    } else {
        s
    }
}

/// `s` without its leading and trailing white space.
pub open spec fn trim_chars(s: Seq<char>) -> Seq<char> {
    trim_end_chars(trim_start_chars(s))
}

pub assume_specification[ str::trim ](s: &str) -> (res: &str)
    ensures
        res@ == trim_chars(s@),
;

pub assume_specification[ String::push ](s: &mut String, ch: char)
    ensures
        final(s)@ == old(s)@.push(ch),
;

/// The characters of a string slice, in order.
pub fn chars_of(s: &str) -> (v: Vec<char>)
    ensures
        v@ == s@,
{
    let mut v: Vec<char> = Vec::new();
    for c in it: s.chars()
        invariant
            v@ == it.seq().take(it.index() as int),
    {
        v.push(c);
    }
    v
}


/// Builds a `String` holding exactly the given characters.
pub fn string_from_chars(v: &[char]) -> (s: String)
    ensures
        s@ == v@,
{
    let mut s = String::new();
    for i in 0..v.len()
        invariant
            s@ == v@.take(i as int),
    {
        s.push(v[i]);
        assert(v@.take(i + 1) == v@.take(i as int).push(v@[i as int]));
    }
    assert(v@.take(v@.len() as int) == v@);
    s
}

/// The ASCII character of a decimal digit.
pub open spec fn digit_char(d: nat) -> char
    recommends
        d < 10,
{
    ((d + 48) as u8) as char
}

/// Decimal rendering of a natural number, as `Display` prints integers.
pub open spec fn decimal(n: nat) -> Seq<char>
    decreases n,
{
    if n < 10 {
        seq![digit_char(n)]
    } else {
        decimal(n / 10).push(digit_char(n % 10))
    }
}

/// Appends the decimal rendering of `n`.
pub fn push_decimal(out: &mut String, n: u64)
    ensures
        final(out)@ == old(out)@ + decimal(n as nat),
    decreases n,
{
    if n >= 10 {
        push_decimal(out, n / 10);
    }
    let d: u8 = (n % 10) as u8;
    out.push((d + 48) as char);
    proof {
        if n >= 10 {
            assert(old(out)@ + decimal(n as nat) == old(out)@ + decimal((n / 10) as nat) + seq![
                digit_char((n % 10) as nat)]);
        }
    }
}

/// Appends a string slice.
pub fn push_str(out: &mut String, s: &str)
    ensures
        final(out)@ == old(out)@ + s@,
{
    let cs = chars_of(s);
    for i in 0..cs.len()
        invariant
            cs@ == s@,
            out@ == old(out)@ + cs@.take(i as int),
    {
        out.push(cs[i]);
        assert(cs@.take(i + 1) == cs@.take(i as int).push(cs@[i as int]));
    }
    assert(cs@.take(cs@.len() as int) == cs@);
}

#[verifier::external_type_specification]
#[verifier::external_body]
pub struct ExUtf8Error(core::str::Utf8Error);

pub assume_specification[ core::str::from_utf8 ](v: &[u8]) -> (res: Result<&str, core::str::Utf8Error>)
    ensures
        res is Ok <==> vstd::utf8::valid_utf8(v@),
        res matches Ok(s) ==> s@ == vstd::utf8::decode_utf8(v@),
;

/// What `str::to_lowercase` returns (Unicode lower-case mapping).
pub uninterp spec fn unicode_lowercase(s: Seq<char>) -> Seq<char>;

/// ASCII lower-casing: `A`..`Z` become `a`..`z`, every other character is
/// kept.
pub open spec fn ascii_lowercase(s: Seq<char>) -> Seq<char> {
    Seq::new(
        s.len(),
        |i: int|
            if 'A' <= s[i] && s[i] <= 'Z' {
                ((s[i] as u32) + 32) as char
            } else {
                s[i]
            },
    )
}

/// `str::to_lowercase`: the Unicode lower-case mapping of the string, which
/// on an ASCII string is ASCII lower-casing (each ASCII character's
/// lower-case mapping is itself or its ASCII lower-case letter).
pub assume_specification[ str::to_lowercase ](s: &str) -> (res: String)
    ensures
        res@ == unicode_lowercase(s@),
        vstd::utf8::is_ascii_chars(s@) ==> res@ == ascii_lowercase(s@),
;

proof fn lemma_trim_start_ascii(s: Seq<char>)
    requires
        vstd::utf8::is_ascii_chars(s),
    ensures
        vstd::utf8::is_ascii_chars(trim_start_chars(s)),
    decreases s.len(),
{
    if s.len() > 0 && is_white_space(s[0]) {
        assert(vstd::utf8::is_ascii_chars(s.drop_first())) by {
            assert forall|i: int| 0 <= i < s.drop_first().len() implies '\0' <= #[trigger] s.drop_first()[i] <= '\u{7f}' by {
                assert(s.drop_first()[i] == s[i + 1]);
            }
        }
        lemma_trim_start_ascii(s.drop_first());
    }
}

proof fn lemma_trim_end_ascii(s: Seq<char>)
    requires
        vstd::utf8::is_ascii_chars(s),
    ensures
        vstd::utf8::is_ascii_chars(trim_end_chars(s)),
    decreases s.len(),
{
    if s.len() > 0 && is_white_space(s.last()) {
        assert(vstd::utf8::is_ascii_chars(s.drop_last())) by {
            assert forall|i: int| 0 <= i < s.drop_last().len() implies '\0' <= #[trigger] s.drop_last()[i] <= '\u{7f}' by {
                assert(s.drop_last()[i] == s[i]);
            }
        }
        lemma_trim_end_ascii(s.drop_last());
    }
}

/// Trimming an ASCII string leaves an ASCII string.
pub proof fn lemma_trim_ascii(s: Seq<char>)
    requires
        vstd::utf8::is_ascii_chars(s),
    ensures
        vstd::utf8::is_ascii_chars(trim_chars(s)),
{
    lemma_trim_start_ascii(s);
    lemma_trim_end_ascii(trim_start_chars(s));
}

/// Character-wise equality of two string slices.
pub fn str_eq(a: &str, b: &str) -> (r: bool)
    ensures
        r == (a@ == b@),
{
    let x = chars_of(a);
    let y = chars_of(b);
    if x.len() != y.len() {
        return false;
    }
    for i in 0..x.len()
        invariant
            x@ == a@,
            y@ == b@,
            x@.len() == y@.len(),
            forall|j: int| 0 <= j < i ==> x@[j] == y@[j],
    {
        if x[i] != y[i] {
            return false;
        }
    }
    assert(x@ == y@);
    true
}

/// Whether the character is white space (`char::is_whitespace`).
pub fn is_white_space_char(c: char) -> (r: bool)
    ensures
        r == is_white_space(c),
{
    ('\u{9}' <= c && c <= '\u{d}') || c == ' ' || c == '\u{85}' || c == '\u{a0}' || c == '\u{1680}'
        || ('\u{2000}' <= c && c <= '\u{200a}') || c == '\u{2028}' || c == '\u{2029}' || c
        == '\u{202f}' || c == '\u{205f}' || c == '\u{3000}'
}

/// Index of the first occurrence of `c` in `s` at or after `from`.
pub open spec fn find_char_from(s: Seq<char>, c: char, from: int) -> Option<int>
    decreases s.len() - from,
{
    if from < 0 || from >= s.len() {
        None
    } else if s[from] == c {
        Some(from)
    } else {
        find_char_from(s, c, from + 1)
    }
}

/// Index of the first occurrence of `c` in `s`.
pub open spec fn find_char(s: Seq<char>, c: char) -> Option<int> {
    find_char_from(s, c, 0)
}

pub proof fn lemma_find_char_from(s: Seq<char>, c: char, from: int)
    ensures
        find_char_from(s, c, from) matches Some(i) ==> from <= i < s.len() && s[i] == c && (
        forall|j: int| from <= j < i ==> s[j] != c),
        find_char_from(s, c, from) is None && 0 <= from ==> forall|j: int|
            from <= j < s.len() ==> s[j] != c,
    decreases s.len() - from,
{
    if 0 <= from < s.len() && s[from] != c {
        lemma_find_char_from(s, c, from + 1);
    }
}

/// First index of `c` in `v` at or after `from`.
pub fn find_char_exec(v: &[char], c: char, from: usize) -> (r: Option<usize>)
    requires
        from <= v@.len(),
    ensures
        match r {
            Some(i) => find_char_from(v@, c, from as int) == Some(i as int),
            None => find_char_from(v@, c, from as int) is None,
        },
{
    let mut i = from;
    while i < v.len()
        invariant
            from <= i <= v@.len(),
            find_char_from(v@, c, from as int) == find_char_from(v@, c, i as int),
        decreases v@.len() - i,
    {
        if v[i] == c {
            return Some(i);
        }
        i = i + 1;
    }
    None
}

/// How `split_whitespace` proceeds through a string: the words finished so
/// far, and the word being read.
pub open spec fn split_state(s: Seq<char>) -> (Seq<Seq<char>>, Seq<char>)
    decreases s.len(),
{
    if s.len() == 0 {
        (seq![], seq![])
    } else {
        let (ws, cur) = split_state(s.drop_last());
        if is_white_space(s.last()) {
            if cur.len() > 0 {
                (ws.push(cur), seq![])
            } else {
                (ws, seq![])
            }
        } else {
            (ws, cur.push(s.last()))
        }
    }
}

/// The maximal runs of non-white-space characters of `s`, in order.
pub open spec fn words(s: Seq<char>) -> Seq<Seq<char>> {
    let (ws, cur) = split_state(s);
    if cur.len() > 0 {
        ws.push(cur)
    } else {
        ws
    }
}

pub open spec fn strings_view(v: Seq<String>) -> Seq<Seq<char>> {
    Seq::new(v.len(), |i: int| v[i]@)
}

/// Every character of `s` is white space.
pub open spec fn all_white(s: Seq<char>) -> bool {
    forall|i: int| 0 <= i < s.len() ==> is_white_space(#[trigger] s[i])
}

proof fn lemma_trim_start_white_prefix(pre: Seq<char>, x: Seq<char>)
    requires
        all_white(pre),
    ensures
        trim_start_chars(pre + x) == trim_start_chars(x),
    decreases pre.len(),
{
    if pre.len() > 0 {
        assert((pre + x)[0] == pre[0]);
        assert((pre + x).drop_first() == pre.drop_first() + x);
        assert(all_white(pre.drop_first())) by {
            assert forall|i: int| 0 <= i < pre.drop_first().len() implies is_white_space(#[trigger] pre.drop_first()[i]) by {
                assert(pre.drop_first()[i] == pre[i + 1]);
            }
        }
        lemma_trim_start_white_prefix(pre.drop_first(), x);
    } else {
        assert(pre + x == x);
    }
}

proof fn lemma_trim_end_white_suffix(x: Seq<char>, post: Seq<char>)
    requires
        all_white(post),
    ensures
        trim_end_chars(x + post) == trim_end_chars(x),
    decreases post.len(),
{
    if post.len() > 0 {
        assert((x + post).last() == post.last());
        assert((x + post).drop_last() == x + post.drop_last());
        assert(all_white(post.drop_last())) by {
            assert forall|i: int| 0 <= i < post.drop_last().len() implies is_white_space(#[trigger] post.drop_last()[i]) by {
                assert(post.drop_last()[i] == post[i]);
            }
        }
        lemma_trim_end_white_suffix(x, post.drop_last());
    } else {
        assert(x + post == x);
    }
}

proof fn lemma_trim_start_all_white(s: Seq<char>)
    requires
        all_white(s),
    ensures
        trim_start_chars(s).len() == 0,
    decreases s.len(),
{
    if s.len() > 0 {
        assert(all_white(s.drop_first())) by {
            assert forall|i: int| 0 <= i < s.drop_first().len() implies is_white_space(#[trigger] s.drop_first()[i]) by {
                assert(s.drop_first()[i] == s[i + 1]);
            }
        }
        lemma_trim_start_all_white(s.drop_first());
    }
}

/// Trimming white space around a text that neither starts nor ends with
/// white space gives the text back.
pub proof fn lemma_trim_padded(pre: Seq<char>, t: Seq<char>, post: Seq<char>)
    requires
        all_white(pre),
        all_white(post),
        t.len() > 0 ==> !is_white_space(t[0]) && !is_white_space(t.last()),
    ensures
        trim_chars(pre + t + post) == t,
{
    assert(pre + t + post == pre + (t + post));
    lemma_trim_start_white_prefix(pre, t + post);
    if t.len() > 0 {
        assert((t + post)[0] == t[0]);
        assert(trim_start_chars(t + post) == t + post);
        lemma_trim_end_white_suffix(t, post);
        assert(trim_end_chars(t) == t);
    } else {
        assert(t + post == post);
        lemma_trim_start_all_white(post);
        assert(trim_start_chars(post) =~= t);
    }
}

/// `s` holds a character that is not white space.
pub open spec fn has_non_white(s: Seq<char>) -> bool {
    exists|i: int| 0 <= i < s.len() && !is_white_space(#[trigger] s[i])
}

proof fn lemma_trim_end_non_white(t: Seq<char>)
    requires
        trim_end_chars(t).len() > 0,
    ensures
        has_non_white(t),
    decreases t.len(),
{
    if t.len() > 0 && is_white_space(t.last()) {
        lemma_trim_end_non_white(t.drop_last());
        let i = choose|i: int| 0 <= i < t.drop_last().len() && !is_white_space(#[trigger] t.drop_last()[i]);
        assert(t[i] == t.drop_last()[i]);
    } else {
        assert(!is_white_space(t[t.len() - 1]));
    }
}

proof fn lemma_trim_start_non_white(s: Seq<char>)
    requires
        has_non_white(trim_start_chars(s)),
    ensures
        has_non_white(s),
    decreases s.len(),
{
    if s.len() > 0 && is_white_space(s[0]) {
        lemma_trim_start_non_white(s.drop_first());
        let i = choose|i: int| 0 <= i < s.drop_first().len() && !is_white_space(#[trigger] s.drop_first()[i]);
        assert(s[i + 1] == s.drop_first()[i]);
    }
}

proof fn lemma_split_state_non_white(s: Seq<char>)
    requires
        has_non_white(s),
    ensures
        split_state(s).0.len() > 0 || split_state(s).1.len() > 0,
    decreases s.len(),
{
    if is_white_space(s.last()) {
        let i = choose|i: int| 0 <= i < s.len() && !is_white_space(#[trigger] s[i]);
        assert(s.drop_last()[i] == s[i]);
        lemma_split_state_non_white(s.drop_last());
    }
}

/// A string that is not blank once trimmed has at least one word, and so
/// has its trimmed form.
pub proof fn lemma_trimmed_has_word(s: Seq<char>)
    requires
        trim_chars(s).len() > 0,
    ensures
        words(s).len() > 0,
        words(trim_chars(s)).len() > 0,
{
    lemma_trim_end_non_white(trim_start_chars(s));
    lemma_trim_start_non_white(s);
    lemma_split_state_non_white(s);
    lemma_trim_end_non_white_kept(trim_start_chars(s));
    lemma_split_state_non_white(trim_chars(s));
}

proof fn lemma_trim_end_non_white_kept(t: Seq<char>)
    requires
        trim_end_chars(t).len() > 0,
    ensures
        has_non_white(trim_end_chars(t)),
    decreases t.len(),
{
    if t.len() > 0 && is_white_space(t.last()) {
        lemma_trim_end_non_white_kept(t.drop_last());
    } else {
        assert(!is_white_space(t[t.len() - 1]));
    }
}

/// The words of `s` (`str::split_whitespace`).
pub fn split_words(s: &str) -> (r: Vec<String>)
    ensures
        strings_view(r@) == words(s@),
{
    let cs = chars_of(s);
    let mut out: Vec<String> = Vec::new();
    let mut cur: Vec<char> = Vec::new();
    for i in 0..cs.len()
        invariant
            cs@ == s@,
            (strings_view(out@), cur@) == split_state(cs@.take(i as int)),
    {
        let c = cs[i];
        let ghost before = cs@.take(i as int);
        assert(cs@.take(i + 1).drop_last() == before);
        if is_white_space_char(c) {
            if cur.len() > 0 {
                let w = string_from_chars(cur.as_slice());
                let ghost ov = strings_view(out@);
                out.push(w);
                assert(strings_view(out@) == ov.push(w@));
                cur = Vec::new();
            }
        } else {
            cur.push(c);
        }
    }
    assert(cs@.take(cs@.len() as int) == cs@);
    if cur.len() > 0 {
        let w = string_from_chars(cur.as_slice());
        let ghost ov = strings_view(out@);
        out.push(w);
        assert(strings_view(out@) == ov.push(w@));
    }
    out
}

} // verus!
