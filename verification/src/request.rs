//! Reading the parts of an HTTP request that the service takes options
//! from: the query string, hex and base64 values, multipart field names.
use vstd::prelude::*;
use vstd::utf8::{decode_utf8, encode_utf8, valid_utf8};

use crate::eat::array32;
use crate::encoding::{base64_decode, base64_decoded, hex_decode, hex_decoded};
use crate::text::{
    chars_of, find_char, find_char_exec, lemma_find_char_from, str_eq, string_from_chars,
    trim_chars,
};

verus! {

/// The pieces of `s` between its `sep` characters (`str::split`).
pub open spec fn split_char(s: Seq<char>, sep: char) -> Seq<Seq<char>>
    decreases s.len(),
{
    match find_char(s, sep) {
        Some(i) => if 0 <= i < s.len() {
            seq![s.take(i)] + split_char(s.skip(i + 1), sep)
        } else {
            seq![s]
        },
        None => seq![s],
    }
}

/// The key and value of a query segment: the text before and after its
/// first `=`; `None` when there is no `=`.
pub open spec fn query_pair(seg: Seq<char>) -> Option<(Seq<char>, Seq<char>)> {
    match find_char(seg, '=') {
        Some(j) => Some((seg.take(j), seg.skip(j + 1))),
        None => None,
    }
}

/// The key/value pairs of the segments, in order.
pub open spec fn query_pairs(segs: Seq<Seq<char>>) -> Seq<(Seq<char>, Seq<char>)>
    decreases segs.len(),
{
    if segs.len() == 0 {
        seq![]
    } else {
        match query_pair(segs.last()) {
            Some(p) => query_pairs(segs.drop_last()).push(p),
            None => query_pairs(segs.drop_last()),
        }
    }
}

/// The map of key/value pairs; a later pair for a key replaces an earlier.
pub open spec fn pairs_map(pairs: Seq<(Seq<char>, Seq<char>)>) -> Map<Seq<char>, Seq<char>>
    decreases pairs.len(),
{
    if pairs.len() == 0 {
        Map::empty()
    } else {
        pairs_map(pairs.drop_last()).insert(pairs.last().0, pairs.last().1)
    }
}

/// The parameters of a query string.
pub open spec fn query_map(q: Seq<char>) -> Map<Seq<char>, Seq<char>> {
    pairs_map(query_pairs(split_char(q, '&')))
}

/// Query parameters: key/value pairs in the order given.
pub struct QueryParams {
    pub pairs: Vec<(String, String)>,
}

pub open spec fn string_pairs_view(v: Seq<(String, String)>) -> Seq<(Seq<char>, Seq<char>)> {
    Seq::new(v.len(), |i: int| (v[i].0@, v[i].1@))
}

impl View for QueryParams {
    type V = Map<Seq<char>, Seq<char>>;

    open spec fn view(&self) -> Map<Seq<char>, Seq<char>> {
        pairs_map(string_pairs_view(self.pairs@))
    }
}

impl QueryParams {
    /// The value of a parameter (the last one given for it).
    pub fn get(&self, key: &str) -> (r: Option<String>)
        ensures
            match r {
                Some(v) => self@.contains_key(key@) && v@ == self@[key@],
                None => !self@.contains_key(key@),
            },
    {
        let ghost pv = string_pairs_view(self.pairs@);
        let mut found: Option<String> = None;
        for i in 0..self.pairs.len()
            invariant
                pv == string_pairs_view(self.pairs@),
                match found {
                    Some(v) => pairs_map(pv.take(i as int)).contains_key(key@) && v@ == pairs_map(
                        pv.take(i as int),
                    )[key@],
                    None => !pairs_map(pv.take(i as int)).contains_key(key@),
                },
        {
            assert(pv.take(i + 1).drop_last() == pv.take(i as int));
            if str_eq(self.pairs[i].0.as_str(), key) {
                found = Some(self.pairs[i].1.clone());
            }
        }
        assert(pv.take(self.pairs@.len() as int) == pv);
        found
    }
}

/// Parse a URI query (`k=v&k2=v2`); segments without `=` are ignored.
pub fn parse_query(uri_query: Option<&str>) -> (r: QueryParams)
    ensures
        r@ == match uri_query {
            Some(q) => query_map(q@),
            None => Map::empty(),
        },
{
    let mut pairs: Vec<(String, String)> = Vec::new();
    let q = match uri_query {
        Some(q) => q,
        None => return QueryParams { pairs },
    };
    let cs = chars_of(q);
    let mut pos: usize = 0;
    assert(cs@.skip(0) == cs@);
    loop
        invariant
            uri_query == Some(q),
            cs@ == q@,
            pos <= cs@.len(),
            query_pairs(split_char(q@, '&')) == string_pairs_view(pairs@) + query_pairs(
                split_char(cs@.skip(pos as int), '&'),
            ),
        decreases cs@.len() - pos,
    {
        let ghost rest = cs@.skip(pos as int);
        let end = match find_char_exec(cs.as_slice(), '&', pos) {
            Some(i) => i,
            None => cs.len(),
        };
        proof {
            lemma_find_char_from(cs@, '&', pos as int);
            lemma_find_shift(cs@, '&', pos as int);
        }
        let seg = &cs.as_slice()[pos..end];
        let ghost sv = seg@;
        assert(sv == rest.take(end - pos));
        let ghost before = string_pairs_view(pairs@);
        match find_char_exec(seg, '=', 0) {
            Some(j) => {
                proof {
                    lemma_find_char_from(sv, '=', 0);
                }
                let k = string_from_chars(&seg[0..j]);
                let v = string_from_chars(&seg[j + 1..seg.len()]);
                assert(seg@.subrange(0, j as int) == sv.take(j as int));
                assert(seg@.subrange(j + 1, seg@.len() as int) == sv.skip(j + 1));
                pairs.push((k, v));
                assert(string_pairs_view(pairs@) == before.push(query_pair(sv)->0));
            },
            None => {
                assert(string_pairs_view(pairs@) == before);
            },
        }
        proof {
            lemma_pairs_split(rest, sv, end - pos, before);
            assert(seq![sv].drop_last() == Seq::<Seq<char>>::empty());
            assert(seq![sv].last() == sv);
            assert(query_pairs(Seq::<Seq<char>>::empty()) == Seq::<(Seq<char>, Seq<char>)>::empty());
            reveal_with_fuel(query_pairs, 2);
            match query_pair(sv) {
                Some(pr) => {
                    assert(query_pairs(seq![sv]) == seq![pr]);
                    assert(before.push(pr) == before + seq![pr]);
                },
                None => {
                    assert(query_pairs(seq![sv]) == Seq::<(Seq<char>, Seq<char>)>::empty());
                    assert(before + Seq::<(Seq<char>, Seq<char>)>::empty() == before);
                },
            }
            assert(string_pairs_view(pairs@) == before + query_pairs(seq![sv]));
        }
        if end == cs.len() {
            assert(query_pairs(split_char(q@, '&')) == string_pairs_view(pairs@)) by {
                assert(before + query_pairs(seq![sv]) == string_pairs_view(pairs@));
            }
            return QueryParams { pairs };
        }
        proof {
            lemma_query_pairs_append(seq![sv], split_char(cs@.skip(end + 1), '&'));
            assert(before + query_pairs(seq![sv]) + query_pairs(split_char(cs@.skip(end + 1), '&'))
                == before + (query_pairs(seq![sv]) + query_pairs(split_char(cs@.skip(end + 1), '&'))));
        }
        assert(rest.skip(end - pos + 1) == cs@.skip(end + 1));
        pos = end + 1;
    }
}

pub proof fn lemma_query_pairs_append(a: Seq<Seq<char>>, b: Seq<Seq<char>>)
    ensures
        query_pairs(a + b) == query_pairs(a) + query_pairs(b),
    decreases b.len(),
{
    if b.len() == 0 {
        assert(a + b == a);
    } else {
        lemma_query_pairs_append(a, b.drop_last());
        assert((a + b).drop_last() == a + b.drop_last());
        assert((a + b).last() == b.last());
    }
}

pub proof fn lemma_find_shift(s: Seq<char>, c: char, from: int)
    requires
        0 <= from <= s.len(),
    ensures
        find_char(s.skip(from), c) == match find_char_from(s, c, from) {
            Some(i) => Some(i - from),
            None => None::<int>,
        },
{
    lemma_find_shift_from(s, c, from, 0);
}

proof fn lemma_find_shift_from(s: Seq<char>, c: char, from: int, k: int)
    requires
        0 <= from <= s.len(),
        0 <= k,
    ensures
        crate::text::find_char_from(s.skip(from), c, k) == match find_char_from(s, c, from + k) {
            Some(i) => Some(i - from),
            None => None::<int>,
        },
    decreases s.len() - from - k,
{
    if from + k < s.len() && s[from + k] != c {
        lemma_find_shift_from(s, c, from, k + 1);
    }
}

pub open spec fn find_char_from(s: Seq<char>, c: char, from: int) -> Option<int> {
    crate::text::find_char_from(s, c, from)
}

proof fn lemma_pairs_split(
    rest: Seq<char>,
    seg: Seq<char>,
    n: int,
    before: Seq<(Seq<char>, Seq<char>)>,
)
    requires
        0 <= n <= rest.len(),
        seg == rest.take(n),
        n < rest.len() ==> rest[n] == '&' && find_char(rest, '&') == Some(n),
        n == rest.len() ==> find_char(rest, '&') is None,
    ensures
        n < rest.len() ==> split_char(rest, '&') == seq![seg] + split_char(rest.skip(n + 1), '&'),
        n == rest.len() ==> split_char(rest, '&') == seq![seg],
{
    if n == rest.len() {
        assert(seg == rest);
    }
}

/// The 32 bytes a hex value denotes (surrounding white space ignored).
pub open spec fn hex32_value(s: Seq<char>) -> Option<Seq<u8>> {
    match hex_decoded(encode_utf8(trim_chars(s))) {
        Some(v) => if v.len() == 32 {
            Some(v)
        } else {
            None
        },
        None => None,
    }
}

/// Parse a 32-byte hex value.
pub fn hex32(s: &str) -> (r: Option<[u8; 32]>)
    ensures
        match r {
            Some(a) => hex32_value(s@) == Some(a@),
            None => hex32_value(s@) is None,
        },
{
    let v = match hex_decode(s.trim().as_bytes()) {
        Some(v) => v,
        None => return None,
    };
    if v.len() != 32 {
        return None;
    }
    Some(array32(v.as_slice()))
}

/// Decode a base64 value (surrounding white space ignored).
pub fn b64_decode(s: &str) -> (r: Option<Vec<u8>>)
    ensures
        match r {
            Some(v) => base64_decoded(encode_utf8(trim_chars(s@))) == Ok::<Seq<u8>, Seq<char>>(v@),
            None => base64_decoded(encode_utf8(trim_chars(s@))) is Err,
        },
{
    match base64_decode(s.trim().as_bytes()) {
        Ok(v) => Some(v),
        Err(_) => None,
    }
}

/// A nonce given as a form field: UTF-8 text holding 32 bytes of hex.
pub fn nonce_from_field(data: &[u8]) -> (r: Option<[u8; 32]>)
    ensures
        match r {
            Some(a) => valid_utf8(data@) && hex32_value(decode_utf8(data@)) == Some(a@),
            None => !valid_utf8(data@) || hex32_value(decode_utf8(data@)) is None,
        },
{
    match core::str::from_utf8(data) {
        Ok(s) => hex32(s),
        Err(_) => None,
    }
}

/// What a multipart form field of an attest request carries.
#[derive(Debug, Clone, Copy, PartialEq, Eq, Structural)]
pub enum FieldRole {
    /// The source archive (`src`, `source` or `file`).
    Source,
    /// A previous stage's token (`previous`).
    Previous,
    /// A hex nonce (`nonce`).
    Nonce,
    /// Anything else, which is ignored.
    Other,
}

pub open spec fn role_of(name: Seq<char>) -> FieldRole {
    if name == "src"@ || name == "source"@ || name == "file"@ {
        FieldRole::Source
    } else if name == "previous"@ {
        FieldRole::Previous
    } else if name == "nonce"@ {
        FieldRole::Nonce
    } else {
        FieldRole::Other
    }
}

/// The form fields of an attest upload: `src`, `source` and `file` each
/// carry the source archive, `previous` a previous stage's token and
/// `nonce` the nonce; a name that differs from all of these in any
/// character (case included) plays no part.
pub proof fn lemma_field_names()
    ensures
        role_of("src"@) == FieldRole::Source,
        role_of("source"@) == FieldRole::Source,
        role_of("file"@) == FieldRole::Source,
        role_of("previous"@) == FieldRole::Previous,
        role_of("nonce"@) == FieldRole::Nonce,
        forall|n: Seq<char>|
            n != "src"@ && n != "source"@ && n != "file"@ && n != "previous"@ && n != "nonce"@
                ==> #[trigger] role_of(n) == FieldRole::Other,
{
    reveal_strlit("src");
    reveal_strlit("source");
    reveal_strlit("file");
    reveal_strlit("previous");
    reveal_strlit("nonce");
    assert("src"@.len() == 3 && "source"@.len() == 6 && "file"@.len() == 4);
    assert("previous"@.len() == 8 && "nonce"@.len() == 5);
    assert("source"@ != "src"@);
    assert("file"@ != "src"@ && "file"@ != "source"@);
    assert("previous"@ != "src"@ && "previous"@ != "source"@ && "previous"@ != "file"@);
    assert("nonce"@ != "src"@ && "nonce"@ != "source"@ && "nonce"@ != "file"@ && "nonce"@
        != "previous"@);
}

/// The role of a form field, by its name.
pub fn field_role(name: &str) -> (r: FieldRole)
    ensures
        r == role_of(name@),
        name@ == "src"@ || name@ == "source"@ || name@ == "file"@ ==> r == FieldRole::Source,
        name@ == "previous"@ ==> r == FieldRole::Previous,
        name@ == "nonce"@ ==> r == FieldRole::Nonce,
{
    proof {
        lemma_field_names();
    }
    if str_eq(name, "src") || str_eq(name, "source") || str_eq(name, "file") {
        FieldRole::Source
    } else if str_eq(name, "previous") {
        FieldRole::Previous
    } else if str_eq(name, "nonce") {
        FieldRole::Nonce
    } else {
        FieldRole::Other
    }
}

} // verus!
