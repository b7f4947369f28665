//! Template resolver.
//!
//! Backup destinations and stray-path entries are configured as templates.
//! A template is resolved in a single left-to-right pass: at each position,
//! if one of the recognized placeholder tokens starts there, the token is
//! replaced by its value and scanning continues after the token; otherwise
//! the byte is copied.  A value is never rescanned, so nothing is ever
//! substituted inside an already-substituted value, and unrecognized
//! `{...}` spans are left verbatim.
//!
//! Recognized tokens: `{installation_path}`, `{step}` and `{unix_time}`.

use vstd::prelude::*;

use crate::text::{matches_at, occurs_at, push_all};

verus! {

/// The bytes of the token `{installation_path}`.
pub open spec fn tok_installation_path() -> Seq<u8> {
    seq![
        ('{' as u8),
        ('i' as u8),
        ('n' as u8),
        ('s' as u8),
        ('t' as u8),
        ('a' as u8),
        ('l' as u8),
        ('l' as u8),
        ('a' as u8),
        ('t' as u8),
        ('i' as u8),
        ('o' as u8),
        ('n' as u8),
        ('_' as u8),
        ('p' as u8),
        ('a' as u8),
        ('t' as u8),
        ('h' as u8),
        ('}' as u8),
    ]
}

/// The bytes of the token `{step}`.
pub open spec fn tok_step() -> Seq<u8> {
    seq![('{' as u8), ('s' as u8), ('t' as u8), ('e' as u8), ('p' as u8), ('}' as u8)]
}

/// The bytes of the token `{unix_time}`.
pub open spec fn tok_unix_time() -> Seq<u8> {
    seq![('{' as u8), ('u' as u8), ('n' as u8), ('i' as u8), ('x' as u8), ('_' as u8), ('t' as u8), ('i' as u8), ('m' as u8), ('e' as u8), ('}' as u8)]
}

fn tok_installation_path_vec() -> (v: Vec<u8>)
    ensures
        v@ == tok_installation_path(),
{
    let mut v: Vec<u8> = Vec::new();
    v.push(('{' as u8));
    v.push(('i' as u8));
    v.push(('n' as u8));
    v.push(('s' as u8));
    v.push(('t' as u8));
    v.push(('a' as u8));
    v.push(('l' as u8));
    v.push(('l' as u8));
    v.push(('a' as u8));
    v.push(('t' as u8));
    v.push(('i' as u8));
    v.push(('o' as u8));
    v.push(('n' as u8));
    v.push(('_' as u8));
    v.push(('p' as u8));
    v.push(('a' as u8));
    v.push(('t' as u8));
    v.push(('h' as u8));
    v.push(('}' as u8));
    proof {
        assert(v@ =~= tok_installation_path());
    }
    v
}

fn tok_step_vec() -> (v: Vec<u8>)
    ensures
        v@ == tok_step(),
{
    let mut v: Vec<u8> = Vec::new();
    v.push(('{' as u8));
    v.push(('s' as u8));
    v.push(('t' as u8));
    v.push(('e' as u8));
    v.push(('p' as u8));
    v.push(('}' as u8));
    proof {
        assert(v@ =~= tok_step());
    }
    v
}

fn tok_unix_time_vec() -> (v: Vec<u8>)
    ensures
        v@ == tok_unix_time(),
{
    let mut v: Vec<u8> = Vec::new();
    v.push(('{' as u8));
    v.push(('u' as u8));
    v.push(('n' as u8));
    v.push(('i' as u8));
    v.push(('x' as u8));
    v.push(('_' as u8));
    v.push(('t' as u8));
    v.push(('i' as u8));
    v.push(('m' as u8));
    v.push(('e' as u8));
    v.push(('}' as u8));
    proof {
        assert(v@ =~= tok_unix_time());
    }
    v
}

/// One of the recognized placeholder tokens starts at position `i` of `t`.
pub open spec fn placeholder_at(t: Seq<u8>, i: int) -> bool {
    ||| occurs_at(t, i, tok_installation_path())
    ||| occurs_at(t, i, tok_step())
    ||| occurs_at(t, i, tok_unix_time())
}

/// The resolution of template `t` against the three placeholder values:
/// a single left-to-right pass, replacing each recognized token by its
/// value and copying every other byte.
pub open spec fn resolved(t: Seq<u8>, path: Seq<u8>, step: Seq<u8>, time: Seq<u8>) -> Seq<u8>
    decreases t.len(),
{
    if t.len() == 0 {
        Seq::empty()
    } else if occurs_at(t, 0, tok_installation_path()) {
        path + resolved(t.skip(tok_installation_path().len() as int), path, step, time)
    } else if occurs_at(t, 0, tok_step()) {
        step + resolved(t.skip(tok_step().len() as int), path, step, time)
    } else if occurs_at(t, 0, tok_unix_time()) {
        time + resolved(t.skip(tok_unix_time().len() as int), path, step, time)
    } else {
        seq![t[0]] + resolved(t.skip(1), path, step, time)
    }
}

/// Substitution of `{installation_path}` alone, used for stray-path
/// entries, which recognize no other token.
pub open spec fn substituted(t: Seq<u8>, path: Seq<u8>) -> Seq<u8>
    decreases t.len(),
{
    if t.len() == 0 {
        Seq::empty()
    } else if occurs_at(t, 0, tok_installation_path()) {
        path + substituted(t.skip(tok_installation_path().len() as int), path)
    } else {
        seq![t[0]] + substituted(t.skip(1), path)
    }
}

/// An occurrence within a suffix is an occurrence in the whole, shifted.
pub proof fn lemma_occurs_at_skip(t: Seq<u8>, n: int, i: int, tok: Seq<u8>)
    requires
        0 <= n <= t.len(),
        0 <= i,
    ensures
        occurs_at(t.skip(n), i, tok) == occurs_at(t, n + i, tok),
{
    if occurs_at(t.skip(n), i, tok) {
        assert forall|k: int| 0 <= k < tok.len() implies t[n + i + k] == tok[k] by {
            assert(t.skip(n)[i + k] == tok[k]);
        }
        assert(occurs_at(t, n + i, tok));
    }
    if occurs_at(t, n + i, tok) {
        assert forall|k: int| 0 <= k < tok.len() implies t.skip(n)[i + k] == tok[k] by {
            assert(t[(n + i) + k] == tok[k]);
        }
        assert(occurs_at(t.skip(n), i, tok));
    }
}

/// Resolves a template against the given installation path, step label
/// and timestamp rendering, as [`resolved`] describes.
pub fn resolve_template(t: &[u8], path: &[u8], step: &[u8], time: &[u8]) -> (r: Vec<u8>)
    ensures
        r@ == resolved(t@, path@, step@, time@),
{
    let tok_ip = tok_installation_path_vec();
    let tok_st = tok_step_vec();
    let tok_ut = tok_unix_time_vec();
    let tlen = t.len();
    let mut r: Vec<u8> = Vec::new();
    let mut i: usize = 0;
    proof {
        assert(tlen == t@.len());
        assert(t@.skip(0) =~= t@);
        assert(r@ + resolved(t@, path@, step@, time@) =~= resolved(t@, path@, step@, time@));
    }
    while i < t.len()
        invariant
            t@.len() <= usize::MAX,
            0 <= i <= t@.len(),
            tok_ip@ == tok_installation_path(),
            tok_st@ == tok_step(),
            tok_ut@ == tok_unix_time(),
            resolved(t@, path@, step@, time@) == r@ + resolved(
                t@.skip(i as int),
                path@,
                step@,
                time@,
            ),
        decreases t@.len() - i,
    {
        let ghost rest = t@.skip(i as int);
        if matches_at(t, i, tok_ip.as_slice()) {
            proof {
                lemma_occurs_at_skip(t@, i as int, 0, tok_installation_path());
                assert(rest.skip(tok_installation_path().len() as int) =~= t@.skip(
                    i + tok_installation_path().len(),
                ));
            }
            push_all(&mut r, path);
            i = i + tok_ip.len();
        } else if matches_at(t, i, tok_st.as_slice()) {
            proof {
                lemma_occurs_at_skip(t@, i as int, 0, tok_installation_path());
                lemma_occurs_at_skip(t@, i as int, 0, tok_step());
                assert(rest.skip(tok_step().len() as int) =~= t@.skip(i + tok_step().len()));
            }
            push_all(&mut r, step);
            i = i + tok_st.len();
        } else if matches_at(t, i, tok_ut.as_slice()) {
            proof {
                lemma_occurs_at_skip(t@, i as int, 0, tok_installation_path());
                lemma_occurs_at_skip(t@, i as int, 0, tok_step());
                lemma_occurs_at_skip(t@, i as int, 0, tok_unix_time());
                assert(rest.skip(tok_unix_time().len() as int) =~= t@.skip(
                    i + tok_unix_time().len(),
                ));
            }
            push_all(&mut r, time);
            i = i + tok_ut.len();
        } else {
            proof {
                lemma_occurs_at_skip(t@, i as int, 0, tok_installation_path());
                lemma_occurs_at_skip(t@, i as int, 0, tok_step());
                lemma_occurs_at_skip(t@, i as int, 0, tok_unix_time());
                assert(rest.skip(1) =~= t@.skip(i + 1));
                assert(rest[0] == t@[i as int]);
            }
            let b = t[i];
            r.push(b);
            i = i + 1;
        }
    }
    proof {
        assert(t@.skip(t@.len() as int) =~= Seq::<u8>::empty());
        assert(r@ + Seq::<u8>::empty() =~= r@);
    }
    r
}

/// Substitutes `{installation_path}` into a stray-path entry, as
/// [`substituted`] describes.
pub fn substitute_install_path(t: &[u8], path: &[u8]) -> (r: Vec<u8>)
    ensures
        r@ == substituted(t@, path@),
{
    let tok_ip = tok_installation_path_vec();
    let tlen = t.len();
    let mut r: Vec<u8> = Vec::new();
    let mut i: usize = 0;
    proof {
        assert(tlen == t@.len());
        assert(t@.skip(0) =~= t@);
        assert(r@ + substituted(t@, path@) =~= substituted(t@, path@));
    }
    while i < t.len()
        invariant
            t@.len() <= usize::MAX,
            0 <= i <= t@.len(),
            tok_ip@ == tok_installation_path(),
            substituted(t@, path@) == r@ + substituted(t@.skip(i as int), path@),
        decreases t@.len() - i,
    {
        let ghost rest = t@.skip(i as int);
        if matches_at(t, i, tok_ip.as_slice()) {
            proof {
                lemma_occurs_at_skip(t@, i as int, 0, tok_installation_path());
                assert(rest.skip(tok_installation_path().len() as int) =~= t@.skip(
                    i + tok_installation_path().len(),
                ));
            }
            push_all(&mut r, path);
            i = i + tok_ip.len();
        } else {
            proof {
                lemma_occurs_at_skip(t@, i as int, 0, tok_installation_path());
                assert(rest.skip(1) =~= t@.skip(i + 1));
                assert(rest[0] == t@[i as int]);
            }
            let b = t[i];
            r.push(b);
            i = i + 1;
        }
    }
    proof {
        assert(t@.skip(t@.len() as int) =~= Seq::<u8>::empty());
        assert(r@ + Seq::<u8>::empty() =~= r@);
    }
    r
}

/// No `{` occurs in `s`, hence no placeholder token does.
pub open spec fn brace_free(s: Seq<u8>) -> bool {
    forall|i: int| 0 <= i < s.len() ==> s[i] != ('{' as u8)
}

/// Detects text that could still hold a placeholder: a resolved
/// destination is fit for use exactly when this returns false.
pub fn has_brace(s: &[u8]) -> (r: bool)
    ensures
        r == !brace_free(s@),
{
    let mut i: usize = 0;
    while i < s.len()
        invariant
            0 <= i <= s@.len(),
            forall|j: int| 0 <= j < i ==> s@[j] != ('{' as u8),
        decreases s@.len() - i,
    {
        if s[i] == ('{' as u8) {
            return true;
        }
        i = i + 1;
    }
    false
}

/// Every placeholder of a template whose `{`s all start recognized
/// tokens is resolved: when the substituted values themselves contain no
/// `{`, the resolved string contains none either, so no placeholder
/// token of any kind remains.
pub proof fn lemma_resolved_placeholder_free(
    t: Seq<u8>,
    path: Seq<u8>,
    step: Seq<u8>,
    time: Seq<u8>,
)
    requires
        forall|i: int| 0 <= i < t.len() && t[i] == ('{' as u8) ==> placeholder_at(t, i),
        brace_free(path),
        brace_free(step),
        brace_free(time),
    ensures
        brace_free(resolved(t, path, step, time)),
    decreases t.len(),
{
    if t.len() == 0 {
    } else if occurs_at(t, 0, tok_installation_path()) {
        let n = tok_installation_path().len() as int;
        lemma_suffix_placeholders(t, n);
        lemma_resolved_placeholder_free(t.skip(n), path, step, time);
        lemma_brace_free_add(path, resolved(t.skip(n), path, step, time));
    } else if occurs_at(t, 0, tok_step()) {
        let n = tok_step().len() as int;
        lemma_suffix_placeholders(t, n);
        lemma_resolved_placeholder_free(t.skip(n), path, step, time);
        lemma_brace_free_add(step, resolved(t.skip(n), path, step, time));
    } else if occurs_at(t, 0, tok_unix_time()) {
        let n = tok_unix_time().len() as int;
        lemma_suffix_placeholders(t, n);
        lemma_resolved_placeholder_free(t.skip(n), path, step, time);
        lemma_brace_free_add(time, resolved(t.skip(n), path, step, time));
    } else {
        assert(t[0] != ('{' as u8));
        lemma_suffix_placeholders(t, 1);
        lemma_resolved_placeholder_free(t.skip(1), path, step, time);
        lemma_brace_free_add(seq![t[0]], resolved(t.skip(1), path, step, time));
    }
}

/// A suffix of a template keeps the property that every `{` starts a
/// recognized token.
proof fn lemma_suffix_placeholders(t: Seq<u8>, n: int)
    requires
        0 <= n <= t.len(),
        forall|i: int| 0 <= i < t.len() && t[i] == ('{' as u8) ==> placeholder_at(t, i),
    ensures
        forall|i: int|
            0 <= i < t.skip(n).len() && t.skip(n)[i] == ('{' as u8) ==> placeholder_at(t.skip(n), i),
{
    assert forall|i: int|
        0 <= i < t.skip(n).len() && t.skip(n)[i] == ('{' as u8) implies placeholder_at(t.skip(n), i) by {
        assert(t[n + i] == ('{' as u8));
        assert(placeholder_at(t, n + i));
        lemma_occurs_at_skip(t, n, i, tok_installation_path());
        lemma_occurs_at_skip(t, n, i, tok_step());
        lemma_occurs_at_skip(t, n, i, tok_unix_time());
    }
}

proof fn lemma_brace_free_add(a: Seq<u8>, b: Seq<u8>)
    requires
        brace_free(a),
        brace_free(b),
    ensures
        brace_free(a + b),
{
    assert forall|i: int| 0 <= i < (a + b).len() implies (a + b)[i] != ('{' as u8) by {
        if i < a.len() {
            assert((a + b)[i] == a[i]);
        } else {
            assert((a + b)[i] == b[i - a.len()]);
        }
    }
}

} // verus!
