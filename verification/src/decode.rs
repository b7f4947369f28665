//! Decoder for the external tool's list output.
//!
//! The external tool prints a JSON array of flat objects with string
//! fields, but may precede it with informational or deprecation text.
//! The decoder therefore scans the raw bytes for the start-of-payload
//! marker `[{"` and parses from there; a missing marker, or a payload
//! that does not fit the expected shape, yields an empty item list
//! rather than an error.
//!
//! The payload grammar accepted here is the shape the tool actually
//! emits: an array of objects whose keys and values are strings, with
//! ASCII whitespace allowed between tokens and the common single-char
//! escapes (`\"`, `\\`, `\/`, `\b`, `\f`, `\n`, `\r`, `\t`) allowed in
//! strings.  Anything else is treated as malformed, hence as an empty
//! list.

use vstd::prelude::*;

use crate::text::{occurs_at, push_all, bytes_eq};

verus! {

/// An item reported by the external tool as updatable: its name, the
/// installed version and the version an update would install.
#[derive(Clone, Debug, PartialEq, Eq)]
pub struct UpdateCandidate {
    pub name: Vec<u8>,
    pub version: Vec<u8>,
    pub update_version: Vec<u8>,
}

/// The mathematical value of an [`UpdateCandidate`].
#[verifier::ext_equal]
pub ghost struct CandidateV {
    pub name: Seq<u8>,
    pub version: Seq<u8>,
    pub update_version: Seq<u8>,
}

impl DeepView for UpdateCandidate {
    type V = CandidateV;

    open spec fn deep_view(&self) -> CandidateV {
        CandidateV { name: self.name@, version: self.version@, update_version: self.update_version@ }
    }
}

/// ASCII whitespace accepted between payload tokens.
pub open spec fn is_ws(b: u8) -> bool {
    b == 32 || b == 9 || b == 10 || b == 13
}

/// The first position at or after `i` holding a non-whitespace byte, or
/// the end of `s`.
pub open spec fn skip_ws(s: Seq<u8>, i: int) -> int
    decreases s.len() - i,
        when 0 <= i <= s.len()
{
    if i < s.len() && is_ws(s[i]) {
        skip_ws(s, i + 1)
    } else {
        i
    }
}

pub proof fn lemma_skip_ws_bounds(s: Seq<u8>, i: int)
    requires
        0 <= i <= s.len(),
    ensures
        i <= skip_ws(s, i) <= s.len(),
    decreases s.len() - i,
{
    if i < s.len() && is_ws(s[i]) {
        lemma_skip_ws_bounds(s, i + 1);
    }
}

/// What a backslash escape denotes, if it is one of the accepted ones.
pub open spec fn unescaped(b: u8) -> Option<u8> {
    if b == ('"' as u8) {
        Some(('"' as u8))
    } else if b == 92 {
        Some(92u8)
    } else if b == ('/' as u8) {
        Some(('/' as u8))
    } else if b == ('b' as u8) {
        Some(8u8)
    } else if b == ('f' as u8) {
        Some(12u8)
    } else if b == ('n' as u8) {
        Some(10u8)
    } else if b == ('r' as u8) {
        Some(13u8)
    } else if b == ('t' as u8) {
        Some(9u8)
    } else {
        None
    }
}

/// Parses the rest of a string literal, `i` standing just after the
/// opening quote; yields the unescaped contents and the position after
/// the closing quote.
pub open spec fn parse_string_body(s: Seq<u8>, i: int) -> Option<(Seq<u8>, int)>
    decreases s.len() - i,
        when 0 <= i <= s.len()
{
    if i >= s.len() {
        None
    } else if s[i] == ('"' as u8) {
        Some((Seq::empty(), i + 1))
    } else if s[i] == 92 {
        if i + 1 < s.len() {
            match unescaped(s[i + 1]) {
                Some(c) => match parse_string_body(s, i + 2) {
                    Some(r) => Some((seq![c] + r.0, r.1)),
                    None => None,
                },
                None => None,
            }
        } else {
            None
        }
    } else {
        match parse_string_body(s, i + 1) {
            Some(r) => Some((seq![s[i]] + r.0, r.1)),
            None => None,
        }
    }
}

pub proof fn lemma_parse_string_body_bounds(s: Seq<u8>, i: int)
    requires
        0 <= i <= s.len(),
    ensures
        parse_string_body(s, i) matches Some(r) ==> i < r.1 <= s.len(),
    decreases s.len() - i,
{
    if i >= s.len() {
    } else if s[i] == ('"' as u8) {
    } else if s[i] == 92 {
        if i + 1 < s.len() {
            lemma_parse_string_body_bounds(s, i + 2);
        }
    } else {
        lemma_parse_string_body_bounds(s, i + 1);
    }
}

/// Parses a string literal starting at `i` (at its opening quote).
pub open spec fn parse_string(s: Seq<u8>, i: int) -> Option<(Seq<u8>, int)> {
    if 0 <= i < s.len() && s[i] == ('"' as u8) {
        parse_string_body(s, i + 1)
    } else {
        None
    }
}

pub proof fn lemma_parse_string_bounds(s: Seq<u8>, i: int)
    requires
        0 <= i <= s.len(),
    ensures
        parse_string(s, i) matches Some(r) ==> i < r.1 <= s.len(),
{
    if 0 <= i < s.len() && s[i] == ('"' as u8) {
        lemma_parse_string_body_bounds(s, i + 1);
    }
}

/// Parses one `"key": "value"` pair starting at the key's quote.
pub open spec fn parse_pair(s: Seq<u8>, i: int) -> Option<((Seq<u8>, Seq<u8>), int)> {
    match parse_string(s, i) {
        Some(k) => {
            let j = skip_ws(s, k.1);
            if j < s.len() && s[j] == (':' as u8) {
                let j2 = skip_ws(s, j + 1);
                match parse_string(s, j2) {
                    Some(v) => Some(((k.0, v.0), v.1)),
                    None => None,
                }
            } else {
                None
            }
        },
        None => None,
    }
}

pub proof fn lemma_parse_pair_bounds(s: Seq<u8>, i: int)
    requires
        0 <= i <= s.len(),
    ensures
        parse_pair(s, i) matches Some(r) ==> i < r.1 <= s.len(),
{
    lemma_parse_string_bounds(s, i);
    if let Some(k) = parse_string(s, i) {
        lemma_skip_ws_bounds(s, k.1);
        let j = skip_ws(s, k.1);
        if j < s.len() && s[j] == (':' as u8) {
            lemma_skip_ws_bounds(s, j + 1);
            lemma_parse_string_bounds(s, skip_ws(s, j + 1));
        }
    }
}

/// Parses a comma-separated run of pairs and the closing `}`, starting
/// at the first pair's quote.
pub open spec fn parse_pairs(s: Seq<u8>, i: int) -> Option<(Seq<(Seq<u8>, Seq<u8>)>, int)>
    decreases s.len() - i,
        when 0 <= i <= s.len()
        via parse_pairs_dec
{
    match parse_pair(s, i) {
        Some(p) => {
            let j = skip_ws(s, p.1);
            if j < s.len() && s[j] == (',' as u8) {
                let j2 = skip_ws(s, j + 1);
                match parse_pairs(s, j2) {
                    Some(ps) => Some((seq![p.0] + ps.0, ps.1)),
                    None => None,
                }
            } else if j < s.len() && s[j] == ('}' as u8) {
                Some((seq![p.0], j + 1))
            } else {
                None
            }
        },
        None => None,
    }
}

#[via_fn]
proof fn parse_pairs_dec(s: Seq<u8>, i: int) {
    lemma_parse_pair_bounds(s, i);
    if let Some(p) = parse_pair(s, i) {
        lemma_skip_ws_bounds(s, p.1);
        let j = skip_ws(s, p.1);
        if j < s.len() && s[j] == (',' as u8) {
            lemma_skip_ws_bounds(s, j + 1);
        }
    }
}

pub proof fn lemma_parse_pairs_bounds(s: Seq<u8>, i: int)
    requires
        0 <= i <= s.len(),
    ensures
        parse_pairs(s, i) matches Some(r) ==> i < r.1 <= s.len(),
    decreases s.len() - i,
{
    lemma_parse_pair_bounds(s, i);
    if let Some(p) = parse_pair(s, i) {
        lemma_skip_ws_bounds(s, p.1);
        let j = skip_ws(s, p.1);
        if j < s.len() && s[j] == (',' as u8) {
            lemma_skip_ws_bounds(s, j + 1);
            lemma_parse_pairs_bounds(s, skip_ws(s, j + 1));
        }
    }
}

/// Parses one object starting at its `{`.
pub open spec fn parse_obj(s: Seq<u8>, i: int) -> Option<(Seq<(Seq<u8>, Seq<u8>)>, int)> {
    if 0 <= i < s.len() && s[i] == ('{' as u8) {
        let j = skip_ws(s, i + 1);
        if j < s.len() && s[j] == ('}' as u8) {
            Some((Seq::empty(), j + 1))
        } else {
            parse_pairs(s, j)
        }
    } else {
        None
    }
}

pub proof fn lemma_parse_obj_bounds(s: Seq<u8>, i: int)
    requires
        0 <= i <= s.len(),
    ensures
        parse_obj(s, i) matches Some(r) ==> i < r.1 <= s.len(),
{
    if 0 <= i < s.len() && s[i] == ('{' as u8) {
        lemma_skip_ws_bounds(s, i + 1);
        lemma_parse_pairs_bounds(s, skip_ws(s, i + 1));
    }
}

/// Parses a comma-separated run of objects and the closing `]`,
/// starting at the first object's `{`.
pub open spec fn parse_objs(s: Seq<u8>, i: int) -> Option<(Seq<Seq<(Seq<u8>, Seq<u8>)>>, int)>
    decreases s.len() - i,
        when 0 <= i <= s.len()
        via parse_objs_dec
{
    match parse_obj(s, i) {
        Some(o) => {
            let j = skip_ws(s, o.1);
            if j < s.len() && s[j] == (',' as u8) {
                let j2 = skip_ws(s, j + 1);
                match parse_objs(s, j2) {
                    Some(os) => Some((seq![o.0] + os.0, os.1)),
                    None => None,
                }
            } else if j < s.len() && s[j] == (']' as u8) {
                Some((seq![o.0], j + 1))
            } else {
                None
            }
        },
        None => None,
    }
}

#[via_fn]
proof fn parse_objs_dec(s: Seq<u8>, i: int) {
    lemma_parse_obj_bounds(s, i);
    if let Some(o) = parse_obj(s, i) {
        lemma_skip_ws_bounds(s, o.1);
        let j = skip_ws(s, o.1);
        if j < s.len() && s[j] == (',' as u8) {
            lemma_skip_ws_bounds(s, j + 1);
        }
    }
}

pub proof fn lemma_parse_objs_bounds(s: Seq<u8>, i: int)
    requires
        0 <= i <= s.len(),
    ensures
        parse_objs(s, i) matches Some(r) ==> i < r.1 <= s.len(),
    decreases s.len() - i,
{
    lemma_parse_obj_bounds(s, i);
    if let Some(o) = parse_obj(s, i) {
        lemma_skip_ws_bounds(s, o.1);
        let j = skip_ws(s, o.1);
        if j < s.len() && s[j] == (',' as u8) {
            lemma_skip_ws_bounds(s, j + 1);
            lemma_parse_objs_bounds(s, skip_ws(s, j + 1));
        }
    }
}

/// Parses the array starting at its `[`.
pub open spec fn parse_arr(s: Seq<u8>, i: int) -> Option<(Seq<Seq<(Seq<u8>, Seq<u8>)>>, int)> {
    if 0 <= i < s.len() && s[i] == ('[' as u8) {
        let j = skip_ws(s, i + 1);
        if j < s.len() && s[j] == (']' as u8) {
            Some((Seq::empty(), j + 1))
        } else {
            parse_objs(s, j)
        }
    } else {
        None
    }
}

pub proof fn lemma_parse_arr_bounds(s: Seq<u8>, i: int)
    requires
        0 <= i <= s.len(),
    ensures
        parse_arr(s, i) matches Some(r) ==> i < r.1 <= s.len(),
{
    if 0 <= i < s.len() && s[i] == ('[' as u8) {
        lemma_skip_ws_bounds(s, i + 1);
        lemma_parse_objs_bounds(s, skip_ws(s, i + 1));
    }
}

/// The objects of a complete payload: the array must start at the first
/// byte and only whitespace may follow it.
pub open spec fn payload_objs(p: Seq<u8>) -> Option<Seq<Seq<(Seq<u8>, Seq<u8>)>>> {
    match parse_arr(p, 0) {
        Some(r) => {
            if 0 <= r.1 <= p.len() && skip_ws(p, r.1) == p.len() {
                Some(r.0)
            } else {
                None
            }
        },
        None => None,
    }
}

/// The value of the first pair with the given key, if any.
pub open spec fn field_of(pairs: Seq<(Seq<u8>, Seq<u8>)>, key: Seq<u8>) -> Option<Seq<u8>>
    decreases pairs.len(),
{
    if pairs.len() == 0 {
        None
    } else if pairs[0].0 == key {
        Some(pairs[0].1)
    } else {
        field_of(pairs.skip(1), key)
    }
}

/// The bytes of the key `name`.
pub open spec fn key_name() -> Seq<u8> {
    seq![('n' as u8), ('a' as u8), ('m' as u8), ('e' as u8)]
}

/// The bytes of the key `version`.
pub open spec fn key_version() -> Seq<u8> {
    seq![('v' as u8), ('e' as u8), ('r' as u8), ('s' as u8), ('i' as u8), ('o' as u8), ('n' as u8)]
}

/// The bytes of the key `update_version`.
pub open spec fn key_update_version() -> Seq<u8> {
    seq![
        ('u' as u8),
        ('p' as u8),
        ('d' as u8),
        ('a' as u8),
        ('t' as u8),
        ('e' as u8),
        ('_' as u8),
        ('v' as u8),
        ('e' as u8),
        ('r' as u8),
        ('s' as u8),
        ('i' as u8),
        ('o' as u8),
        ('n' as u8),
    ]
}

/// The update candidate an object denotes, if it carries all three
/// required fields.
pub open spec fn obj_candidate(pairs: Seq<(Seq<u8>, Seq<u8>)>) -> Option<CandidateV> {
    match (field_of(pairs, key_name()), field_of(pairs, key_version()), field_of(
        pairs,
        key_update_version(),
    )) {
        (Some(n), Some(v), Some(u)) => Some(CandidateV { name: n, version: v, update_version: u }),
        _ => None,
    }
}

/// The candidates of the objects from index `i` on; `None` as soon as
/// one object lacks a required field.
pub open spec fn objs_candidates_from(objs: Seq<Seq<(Seq<u8>, Seq<u8>)>>, i: int) -> Option<
    Seq<CandidateV>,
>
    decreases objs.len() - i,
        when 0 <= i <= objs.len()
{
    if i >= objs.len() {
        Some(Seq::empty())
    } else {
        match obj_candidate(objs[i]) {
            Some(c) => match objs_candidates_from(objs, i + 1) {
                Some(cs) => Some(seq![c] + cs),
                None => None,
            },
            None => None,
        }
    }
}

/// The names of the objects from index `i` on; `None` as soon as one
/// object lacks a `name` field.
pub open spec fn objs_names_from(objs: Seq<Seq<(Seq<u8>, Seq<u8>)>>, i: int) -> Option<
    Seq<Seq<u8>>,
>
    decreases objs.len() - i,
        when 0 <= i <= objs.len()
{
    if i >= objs.len() {
        Some(Seq::empty())
    } else {
        match field_of(objs[i], key_name()) {
            Some(n) => match objs_names_from(objs, i + 1) {
                Some(ns) => Some(seq![n] + ns),
                None => None,
            },
            None => None,
        }
    }
}

/// The start-of-payload marker `[{"`.
pub open spec fn marker() -> Seq<u8> {
    seq![('[' as u8), ('{' as u8), ('"' as u8)]
}

/// The first position at or after `i` where the marker occurs.
pub open spec fn find_marker_from(s: Seq<u8>, i: int) -> Option<int>
    decreases s.len() - i,
        when 0 <= i
{
    if i + marker().len() > s.len() {
        None
    } else if occurs_at(s, i, marker()) {
        Some(i)
    } else {
        find_marker_from(s, i + 1)
    }
}

/// The first position where the start-of-payload marker occurs.
pub open spec fn find_marker(s: Seq<u8>) -> Option<int> {
    find_marker_from(s, 0)
}

pub proof fn lemma_find_marker_from_bounds(s: Seq<u8>, i: int)
    requires
        0 <= i,
    ensures
        find_marker_from(s, i) matches Some(m) ==> i <= m && m + marker().len() <= s.len()
            && occurs_at(s, m, marker()),
    decreases s.len() - i,
{
    if i + marker().len() > s.len() {
    } else if occurs_at(s, i, marker()) {
    } else {
        lemma_find_marker_from_bounds(s, i + 1);
    }
}

/// The update candidates decoded from raw list output: everything from
/// the marker on must be a well-shaped payload whose objects all carry
/// the three fields; any other raw output decodes to no items.
pub open spec fn decoded_updates(raw: Seq<u8>) -> Seq<CandidateV> {
    match find_marker(raw) {
        None => Seq::empty(),
        Some(m) => match payload_objs(raw.skip(m)) {
            Some(objs) => match objs_candidates_from(objs, 0) {
                Some(cs) => cs,
                None => Seq::empty(),
            },
            None => Seq::empty(),
        },
    }
}

/// The names decoded from raw list output, under the same policy as
/// [`decoded_updates`].
pub open spec fn decoded_names(raw: Seq<u8>) -> Seq<Seq<u8>> {
    match find_marker(raw) {
        None => Seq::empty(),
        Some(m) => match payload_objs(raw.skip(m)) {
            Some(objs) => match objs_names_from(objs, 0) {
                Some(ns) => ns,
                None => Seq::empty(),
            },
            None => Seq::empty(),
        },
    }
}

proof fn lemma_find_marker_in_concat(junk: Seq<u8>, payload: Seq<u8>, i: int)
    requires
        0 <= i <= junk.len(),
        occurs_at(payload, 0, marker()),
        forall|k: int| !occurs_at(junk, k, marker()),
    ensures
        find_marker_from(junk + payload, i) == Some(junk.len() as int),
    decreases junk.len() - i,
{
    let c = junk + payload;
    assert(occurs_at(c, junk.len() as int, marker())) by {
        assert forall|k: int| 0 <= k < marker().len() implies c[junk.len() + k] == marker()[k] by {
            assert(c[junk.len() + k] == payload[k]);
        }
    }
    if i == junk.len() {
    } else {
        assert(!occurs_at(c, i, marker())) by {
            if occurs_at(c, i, marker()) {
                if i + marker().len() <= junk.len() {
                    assert(occurs_at(junk, i, marker())) by {
                        assert forall|k: int|
                            0 <= k < marker().len() implies junk[i + k] == marker()[k] by {
                            assert(c[i + k] == junk[i + k]);
                        }
                    }
                } else if i + 1 == junk.len() {
                    assert(c[i + 1] == payload[0]);
                    assert(payload[0] == marker()[0]);
                    assert(c[i + 1] == marker()[1]);
                } else {
                    assert(i + 2 == junk.len());
                    assert(c[i + 2] == payload[0]);
                    assert(payload[0] == marker()[0]);
                    assert(c[i + 2] == marker()[2]);
                }
            }
        }
        lemma_find_marker_in_concat(junk, payload, i + 1);
    }
}

/// Leading non-payload noise changes nothing: raw output made of
/// marker-free noise followed by a payload that starts with the marker
/// decodes to exactly the items of the payload alone.
pub proof fn lemma_noise_before_payload(junk: Seq<u8>, payload: Seq<u8>)
    requires
        occurs_at(payload, 0, marker()),
        forall|k: int| !occurs_at(junk, k, marker()),
    ensures
        decoded_updates(junk + payload) == decoded_updates(payload),
        decoded_names(junk + payload) == decoded_names(payload),
{
    let c = junk + payload;
    lemma_find_marker_in_concat(junk, payload, 0);
    assert(find_marker(c) == Some(junk.len() as int));
    assert(find_marker(payload) == Some(0int));
    assert(c.skip(junk.len() as int) =~= payload);
    assert(payload.skip(0) =~= payload);
}

/// Output without the payload marker decodes to no items at all.
pub proof fn lemma_no_payload_is_empty(raw: Seq<u8>)
    requires
        find_marker(raw) is None,
    ensures
        decoded_updates(raw) == Seq::<CandidateV>::empty(),
        decoded_names(raw) == Seq::<Seq<u8>>::empty(),
{
}

/// Output whose located payload is not well-shaped also decodes to no
/// items, rather than to an error.
pub proof fn lemma_malformed_payload_is_empty(raw: Seq<u8>, m: int)
    requires
        find_marker(raw) == Some(m),
        payload_objs(raw.skip(m)) is None,
    ensures
        decoded_updates(raw) == Seq::<CandidateV>::empty(),
        decoded_names(raw) == Seq::<Seq<u8>>::empty(),
{
}

/// The views of a run of parsed pairs.
pub open spec fn pair_views(ps: Seq<(Vec<u8>, Vec<u8>)>) -> Seq<(Seq<u8>, Seq<u8>)> {
    Seq::new(ps.len(), |k: int| (ps[k].0@, ps[k].1@))
}

/// The views of a run of parsed objects.
pub open spec fn obj_views(os: Seq<Vec<(Vec<u8>, Vec<u8>)>>) -> Seq<Seq<(Seq<u8>, Seq<u8>)>> {
    Seq::new(os.len(), |k: int| pair_views(os[k]@))
}

fn skip_ws_x(s: &[u8], i: usize) -> (r: usize)
    requires
        i <= s@.len(),
    ensures
        r as int == skip_ws(s@, i as int),
        i <= r <= s@.len(),
{
    let mut r = i;
    while r < s.len() && (s[r] == 32 || s[r] == 9 || s[r] == 10 || s[r] == 13)
        invariant
            i <= r <= s@.len(),
            skip_ws(s@, i as int) == skip_ws(s@, r as int),
        decreases s@.len() - r,
    {
        r = r + 1;
    }
    r
}

fn unescaped_x(b: u8) -> (r: Option<u8>)
    ensures
        r == unescaped(b),
{
    if b == ('"' as u8) {
        Some(('"' as u8))
    } else if b == 92 {
        Some(92u8)
    } else if b == ('/' as u8) {
        Some(('/' as u8))
    } else if b == ('b' as u8) {
        Some(8u8)
    } else if b == ('f' as u8) {
        Some(12u8)
    } else if b == ('n' as u8) {
        Some(10u8)
    } else if b == ('r' as u8) {
        Some(13u8)
    } else if b == ('t' as u8) {
        Some(9u8)
    } else {
        None
    }
}

fn parse_string_body_x(s: &[u8], i: usize) -> (r: Option<(Vec<u8>, usize)>)
    requires
        i <= s@.len(),
    ensures
        r is Some <==> parse_string_body(s@, i as int) is Some,
        r matches Some(p) ==> parse_string_body(s@, i as int) == Some((p.0@, p.1 as int)),
    decreases s@.len() - i,
{
    if i >= s.len() {
        None
    } else if s[i] == ('"' as u8) {
        let v: Vec<u8> = Vec::new();
        proof {
            assert(v@ =~= Seq::<u8>::empty());
        }
        Some((v, i + 1))
    } else if s[i] == 92 {
        if i + 1 < s.len() {
            match unescaped_x(s[i + 1]) {
                Some(c) => match parse_string_body_x(s, i + 2) {
                    Some(p) => {
                        let ghost pv = p.0@;
                        let mut v = p.0;
                        v.insert(0, c);
                        proof {
                            assert(v@ =~= seq![c] + pv);
                        }
                        Some((v, p.1))
                    },
                    None => None,
                },
                None => None,
            }
        } else {
            None
        }
    } else {
        let c = s[i];
        match parse_string_body_x(s, i + 1) {
            Some(p) => {
                let ghost pv = p.0@;
                let mut v = p.0;
                v.insert(0, c);
                proof {
                    assert(v@ =~= seq![c] + pv);
                }
                Some((v, p.1))
            },
            None => None,
        }
    }
}

fn parse_string_x(s: &[u8], i: usize) -> (r: Option<(Vec<u8>, usize)>)
    requires
        i <= s@.len(),
    ensures
        r is Some <==> parse_string(s@, i as int) is Some,
        r matches Some(p) ==> parse_string(s@, i as int) == Some((p.0@, p.1 as int)),
{
    if i < s.len() && s[i] == ('"' as u8) {
        parse_string_body_x(s, i + 1)
    } else {
        None
    }
}

fn parse_pair_x(s: &[u8], i: usize) -> (r: Option<((Vec<u8>, Vec<u8>), usize)>)
    requires
        i <= s@.len(),
    ensures
        r is Some <==> parse_pair(s@, i as int) is Some,
        r matches Some(p) ==> parse_pair(s@, i as int) == Some(
            ((p.0.0@, p.0.1@), p.1 as int),
        ),
{
    proof {
        lemma_parse_string_bounds(s@, i as int);
    }
    match parse_string_x(s, i) {
        Some(k) => {
            let j = skip_ws_x(s, k.1);
            if j < s.len() && s[j] == (':' as u8) {
                proof {
                    lemma_skip_ws_bounds(s@, j + 1);
                    lemma_parse_string_bounds(s@, skip_ws(s@, j + 1));
                }
                let j2 = skip_ws_x(s, j + 1);
                match parse_string_x(s, j2) {
                    Some(v) => Some(((k.0, v.0), v.1)),
                    None => None,
                }
            } else {
                None
            }
        },
        None => None,
    }
}

fn parse_pairs_x(s: &[u8], i: usize) -> (r: Option<(Vec<(Vec<u8>, Vec<u8>)>, usize)>)
    requires
        i <= s@.len(),
    ensures
        r is Some <==> parse_pairs(s@, i as int) is Some,
        r matches Some(p) ==> parse_pairs(s@, i as int) == Some((pair_views(p.0@), p.1 as int)),
    decreases s@.len() - i,
{
    proof {
        lemma_parse_pair_bounds(s@, i as int);
    }
    match parse_pair_x(s, i) {
        Some(p) => {
            let j = skip_ws_x(s, p.1);
            if j < s.len() && s[j] == (',' as u8) {
                proof {
                    lemma_skip_ws_bounds(s@, j + 1);
                }
                let j2 = skip_ws_x(s, j + 1);
                match parse_pairs_x(s, j2) {
                    Some(ps) => {
                        let ghost psv = ps.0@;
                        let ghost prv = (p.0.0@, p.0.1@);
                        let mut v = ps.0;
                        v.insert(0, p.0);
                        proof {
                            assert(pair_views(v@) =~= seq![prv] + pair_views(psv));
                        }
                        Some((v, ps.1))
                    },
                    None => None,
                }
            } else if j < s.len() && s[j] == ('}' as u8) {
                let mut v: Vec<(Vec<u8>, Vec<u8>)> = Vec::new();
                let ghost prv = (p.0.0@, p.0.1@);
                v.push(p.0);
                proof {
                    assert(pair_views(v@) =~= seq![prv]);
                }
                Some((v, j + 1))
            } else {
                None
            }
        },
        None => None,
    }
}

fn parse_obj_x(s: &[u8], i: usize) -> (r: Option<(Vec<(Vec<u8>, Vec<u8>)>, usize)>)
    requires
        i <= s@.len(),
    ensures
        r is Some <==> parse_obj(s@, i as int) is Some,
        r matches Some(p) ==> parse_obj(s@, i as int) == Some((pair_views(p.0@), p.1 as int)),
{
    if i < s.len() && s[i] == ('{' as u8) {
        proof {
            lemma_skip_ws_bounds(s@, i + 1);
        }
        let j = skip_ws_x(s, i + 1);
        if j < s.len() && s[j] == ('}' as u8) {
            let v: Vec<(Vec<u8>, Vec<u8>)> = Vec::new();
            proof {
                assert(pair_views(v@) =~= Seq::<(Seq<u8>, Seq<u8>)>::empty());
            }
            Some((v, j + 1))
        } else {
            parse_pairs_x(s, j)
        }
    } else {
        None
    }
}

fn parse_objs_x(s: &[u8], i: usize) -> (r: Option<(Vec<Vec<(Vec<u8>, Vec<u8>)>>, usize)>)
    requires
        i <= s@.len(),
    ensures
        r is Some <==> parse_objs(s@, i as int) is Some,
        r matches Some(p) ==> parse_objs(s@, i as int) == Some((obj_views(p.0@), p.1 as int)),
    decreases s@.len() - i,
{
    proof {
        lemma_parse_obj_bounds(s@, i as int);
    }
    match parse_obj_x(s, i) {
        Some(o) => {
            let j = skip_ws_x(s, o.1);
            if j < s.len() && s[j] == (',' as u8) {
                proof {
                    lemma_skip_ws_bounds(s@, j + 1);
                }
                let j2 = skip_ws_x(s, j + 1);
                match parse_objs_x(s, j2) {
                    Some(os) => {
                        let ghost osv = os.0@;
                        let ghost ov = pair_views(o.0@);
                        let mut v = os.0;
                        v.insert(0, o.0);
                        proof {
                            assert(obj_views(v@) =~= seq![ov] + obj_views(osv));
                        }
                        Some((v, os.1))
                    },
                    None => None,
                }
            } else if j < s.len() && s[j] == (']' as u8) {
                let ghost ov = pair_views(o.0@);
                let mut v: Vec<Vec<(Vec<u8>, Vec<u8>)>> = Vec::new();
                v.push(o.0);
                proof {
                    assert(obj_views(v@) =~= seq![ov]);
                }
                Some((v, j + 1))
            } else {
                None
            }
        },
        None => None,
    }
}

fn parse_arr_x(s: &[u8], i: usize) -> (r: Option<(Vec<Vec<(Vec<u8>, Vec<u8>)>>, usize)>)
    requires
        i <= s@.len(),
    ensures
        r is Some <==> parse_arr(s@, i as int) is Some,
        r matches Some(p) ==> parse_arr(s@, i as int) == Some((obj_views(p.0@), p.1 as int)),
{
    if i < s.len() && s[i] == ('[' as u8) {
        proof {
            lemma_skip_ws_bounds(s@, i + 1);
        }
        let j = skip_ws_x(s, i + 1);
        if j < s.len() && s[j] == (']' as u8) {
            let v: Vec<Vec<(Vec<u8>, Vec<u8>)>> = Vec::new();
            proof {
                assert(obj_views(v@) =~= Seq::<Seq<(Seq<u8>, Seq<u8>)>>::empty());
            }
            Some((v, j + 1))
        } else {
            parse_objs_x(s, j)
        }
    } else {
        None
    }
}

fn key_name_vec() -> (v: Vec<u8>)
    ensures
        v@ == key_name(),
{
    let mut v: Vec<u8> = Vec::new();
    v.push('n' as u8);
    v.push('a' as u8);
    v.push('m' as u8);
    v.push('e' as u8);
    proof {
        assert(v@ =~= key_name());
    }
    v
}

fn key_version_vec() -> (v: Vec<u8>)
    ensures
        v@ == key_version(),
{
    let mut v: Vec<u8> = Vec::new();
    v.push('v' as u8);
    v.push('e' as u8);
    v.push('r' as u8);
    v.push('s' as u8);
    v.push('i' as u8);
    v.push('o' as u8);
    v.push('n' as u8);
    proof {
        assert(v@ =~= key_version());
    }
    v
}

fn key_update_version_vec() -> (v: Vec<u8>)
    ensures
        v@ == key_update_version(),
{
    let mut v: Vec<u8> = Vec::new();
    v.push('u' as u8);
    v.push('p' as u8);
    v.push('d' as u8);
    v.push('a' as u8);
    v.push('t' as u8);
    v.push('e' as u8);
    v.push('_' as u8);
    v.push('v' as u8);
    v.push('e' as u8);
    v.push('r' as u8);
    v.push('s' as u8);
    v.push('i' as u8);
    v.push('o' as u8);
    v.push('n' as u8);
    proof {
        assert(v@ =~= key_update_version());
    }
    v
}

fn find_field(pairs: &Vec<(Vec<u8>, Vec<u8>)>, key: &[u8]) -> (r: Option<Vec<u8>>)
    ensures
        r is Some <==> field_of(pair_views(pairs@), key@) is Some,
        r matches Some(v) ==> field_of(pair_views(pairs@), key@) == Some(v@),
{
    let ghost whole = pair_views(pairs@);
    let mut i: usize = 0;
    proof {
        assert(whole.skip(0) =~= whole);
    }
    while i < pairs.len()
        invariant
            0 <= i <= pairs@.len(),
            whole == pair_views(pairs@),
            field_of(whole, key@) == field_of(whole.skip(i as int), key@),
        decreases pairs@.len() - i,
    {
        proof {
            assert(whole.skip(i as int)[0] == (pairs@[i as int].0@, pairs@[i as int].1@));
            assert(whole.skip(i as int).skip(1) =~= whole.skip(i + 1));
        }
        if bytes_eq(pairs[i].0.as_slice(), key) {
            let mut v: Vec<u8> = Vec::new();
            push_all(&mut v, pairs[i].1.as_slice());
            proof {
                assert(v@ =~= pairs@[i as int].1@);
            }
            return Some(v);
        }
        i = i + 1;
    }
    proof {
        assert(whole.skip(pairs@.len() as int) =~= Seq::<(Seq<u8>, Seq<u8>)>::empty());
    }
    None
}

fn objs_to_candidates(objs: &Vec<Vec<(Vec<u8>, Vec<u8>)>>, i: usize) -> (r: Option<
    Vec<UpdateCandidate>,
>)
    requires
        i <= objs@.len(),
    ensures
        r is Some <==> objs_candidates_from(obj_views(objs@), i as int) is Some,
        r matches Some(v) ==> objs_candidates_from(obj_views(objs@), i as int) == Some(
            v.deep_view(),
        ),
    decreases objs@.len() - i,
{
    if i >= objs.len() {
        let v: Vec<UpdateCandidate> = Vec::new();
        proof {
            assert(v.deep_view() =~= Seq::<CandidateV>::empty());
        }
        Some(v)
    } else {
        let kn = key_name_vec();
        let kv = key_version_vec();
        let ku = key_update_version_vec();
        proof {
            assert(obj_views(objs@)[i as int] == pair_views(objs@[i as int]@));
        }
        let n = match find_field(&objs[i], kn.as_slice()) {
            Some(n) => n,
            None => {
                return None;
            },
        };
        let ver = match find_field(&objs[i], kv.as_slice()) {
            Some(v) => v,
            None => {
                return None;
            },
        };
        let u = match find_field(&objs[i], ku.as_slice()) {
            Some(u) => u,
            None => {
                return None;
            },
        };
        match objs_to_candidates(objs, i + 1) {
            Some(cs) => {
                let ghost csv = cs.deep_view();
                let c = UpdateCandidate { name: n, version: ver, update_version: u };
                let ghost cv = c.deep_view();
                let mut v = cs;
                v.insert(0, c);
                proof {
                    assert(v.deep_view() =~= seq![cv] + csv);
                }
                Some(v)
            },
            None => None,
        }
    }
}

fn objs_to_names(objs: &Vec<Vec<(Vec<u8>, Vec<u8>)>>, i: usize) -> (r: Option<Vec<Vec<u8>>>)
    requires
        i <= objs@.len(),
    ensures
        r is Some <==> objs_names_from(obj_views(objs@), i as int) is Some,
        r matches Some(v) ==> objs_names_from(obj_views(objs@), i as int) == Some(v.deep_view()),
    decreases objs@.len() - i,
{
    if i >= objs.len() {
        let v: Vec<Vec<u8>> = Vec::new();
        proof {
            assert(v.deep_view() =~= Seq::<Seq<u8>>::empty());
        }
        Some(v)
    } else {
        let kn = key_name_vec();
        proof {
            assert(obj_views(objs@)[i as int] == pair_views(objs@[i as int]@));
        }
        let n = match find_field(&objs[i], kn.as_slice()) {
            Some(n) => n,
            None => {
                return None;
            },
        };
        match objs_to_names(objs, i + 1) {
            Some(ns) => {
                let ghost nsv = ns.deep_view();
                let ghost nv = n@;
                let mut v = ns;
                v.insert(0, n);
                proof {
                    assert(v.deep_view() =~~= seq![nv] + nsv);
                }
                Some(v)
            },
            None => None,
        }
    }
}

fn find_marker_x(s: &[u8]) -> (r: Option<usize>)
    ensures
        r is Some <==> find_marker(s@) is Some,
        r matches Some(m) ==> find_marker(s@) == Some(m as int),
{
    let mut i: usize = 0;
    while s.len() - i >= 3
        invariant
            0 <= i <= s@.len(),
            find_marker(s@) == find_marker_from(s@, i as int),
        decreases s@.len() - i,
    {
        if s[i] == ('[' as u8) && s[i + 1] == ('{' as u8) && s[i + 2] == ('"' as u8) {
            proof {
                assert forall|k: int| 0 <= k < marker().len() implies s@[i + k] == marker()[k] by {
                    if k == 0 {
                    } else if k == 1 {
                    } else {
                    }
                }
                assert(occurs_at(s@, i as int, marker()));
            }
            return Some(i);
        }
        proof {
            assert(!occurs_at(s@, i as int, marker())) by {
                if occurs_at(s@, i as int, marker()) {
                    assert(s@[i + 0] == marker()[0]);
                    assert(s@[i + 1] == marker()[1]);
                    assert(s@[i + 2] == marker()[2]);
                }
            }
        }
        i = i + 1;
    }
    None
}

/// Locates the start-of-payload marker and returns the raw output from
/// there on, or nothing when no marker occurs.
pub fn get_json(s: &[u8]) -> (r: Option<&[u8]>)
    ensures
        r is Some <==> find_marker(s@) is Some,
        r matches Some(p) ==> find_marker(s@) matches Some(m) && p@ == s@.skip(m),
{
    match find_marker_x(s) {
        Some(i) => {
            proof {
                lemma_find_marker_from_bounds(s@, 0);
                assert(s@.subrange(i as int, s@.len() as int) =~= s@.skip(i as int));
            }
            Some(&s[i..s.len()])
        },
        None => None,
    }
}

/// Decodes raw list output into update candidates, as
/// [`decoded_updates`] describes: leading noise before the payload
/// marker is skipped, and raw output without a well-shaped payload
/// yields no items.
pub fn decode_update_list(raw: &[u8]) -> (r: Vec<UpdateCandidate>)
    ensures
        r.deep_view() == decoded_updates(raw@),
{
    let p = match get_json(raw) {
        Some(p) => p,
        None => {
            let v: Vec<UpdateCandidate> = Vec::new();
            proof {
                assert(v.deep_view() =~= decoded_updates(raw@));
            }
            return v;
        },
    };
    match parse_arr_x(p, 0) {
        Some(a) => {
            proof {
                lemma_parse_arr_bounds(p@, 0);
            }
            let j = skip_ws_x(p, a.1);
            if j == p.len() {
                match objs_to_candidates(&a.0, 0) {
                    Some(v) => {
                        proof {
                            assert(v.deep_view() == decoded_updates(raw@));
                        }
                        v
                    },
                    None => {
                        let v: Vec<UpdateCandidate> = Vec::new();
                        proof {
                            assert(v.deep_view() =~= decoded_updates(raw@));
                        }
                        v
                    },
                }
            } else {
                let v: Vec<UpdateCandidate> = Vec::new();
                proof {
                    assert(v.deep_view() =~= decoded_updates(raw@));
                }
                v
            }
        },
        None => {
            let v: Vec<UpdateCandidate> = Vec::new();
            proof {
                assert(v.deep_view() =~= decoded_updates(raw@));
            }
            v
        },
    }
}

/// Decodes raw list output into item names, under the same policy as
/// [`decode_update_list`].
pub fn decode_name_list(raw: &[u8]) -> (r: Vec<Vec<u8>>)
    ensures
        r.deep_view() == decoded_names(raw@),
{
    let p = match get_json(raw) {
        Some(p) => p,
        None => {
            let v: Vec<Vec<u8>> = Vec::new();
            proof {
                assert(v.deep_view() =~= decoded_names(raw@));
            }
            return v;
        },
    };
    match parse_arr_x(p, 0) {
        Some(a) => {
            proof {
                lemma_parse_arr_bounds(p@, 0);
            }
            let j = skip_ws_x(p, a.1);
            if j == p.len() {
                match objs_to_names(&a.0, 0) {
                    Some(v) => {
                        proof {
                            assert(v.deep_view() == decoded_names(raw@));
                        }
                        v
                    },
                    None => {
                        let v: Vec<Vec<u8>> = Vec::new();
                        proof {
                            assert(v.deep_view() =~= decoded_names(raw@));
                        }
                        v
                    },
                }
            } else {
                let v: Vec<Vec<u8>> = Vec::new();
                proof {
                    assert(v.deep_view() =~= decoded_names(raw@));
                }
                v
            }
        },
        None => {
            let v: Vec<Vec<u8>> = Vec::new();
            proof {
                assert(v.deep_view() =~= decoded_names(raw@));
            }
            v
        },
    }
}

} // verus!
