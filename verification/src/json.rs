//! The document model: a JSON-like value made of plain data.
//!
//! Strings are carried as raw UTF-8 bytes, opaque to this library, so the
//! codec never has to reason about character encodings. Numbers are exact
//! decimals: a sign, a mantissa and a scale, so that `2.0` and `0.45` keep
//! the digits they were written with.

use vstd::prelude::*;

verus! {

/// Mathematical shape of a document, used in contracts.
pub enum JsonV {
    Null,
    Bool(bool),
    /// The number `mantissa / 10^scale`, negated when `neg` is set.
    Num { neg: bool, mantissa: u64, scale: u32 },
    Str(Seq<u8>),
    Arr(Seq<JsonV>),
    /// Members in order; duplicate keys stay as separate members.
    Obj(Seq<(Seq<u8>, JsonV)>),
}

/// A document value as held at run time.
#[derive(Debug, PartialEq)]
pub enum Json {
    Null,
    Bool(bool),
    /// The number `mantissa / 10^scale`, negated when `neg` is set.
    Num { neg: bool, mantissa: u64, scale: u32 },
    Str(Vec<u8>),
    Arr(Vec<Json>),
    Obj(Vec<(Vec<u8>, Json)>),
}

pub open spec fn jview(j: Json) -> JsonV
    decreases j,
{
    match j {
        Json::Null => JsonV::Null,
        Json::Bool(b) => JsonV::Bool(b),
        Json::Num { neg, mantissa, scale } => JsonV::Num { neg, mantissa, scale },
        Json::Str(s) => JsonV::Str(s@),
        Json::Arr(a) => JsonV::Arr(jview_seq(a@)),
        Json::Obj(m) => JsonV::Obj(jview_pairs(m@)),
    }
}

pub open spec fn jview_seq(a: Seq<Json>) -> Seq<JsonV>
    decreases a,
{
    if a.len() <= 0 {
        Seq::empty()
    } else {
        seq![jview(a[0])] + jview_seq(a.subrange(1, a.len() as int))
    }
}

pub open spec fn jview_pairs(m: Seq<(Vec<u8>, Json)>) -> Seq<(Seq<u8>, JsonV)>
    decreases m,
{
    if m.len() <= 0 {
        Seq::empty()
    } else {
        seq![(m[0].0@, jview(m[0].1))] + jview_pairs(m.subrange(1, m.len() as int))
    }
}

impl View for Json {
    type V = JsonV;

    open spec fn view(&self) -> JsonV {
        jview(*self)
    }
}

/// `jview_seq` maps the view element by element.
pub proof fn lemma_jview_seq(a: Seq<Json>)
    ensures
        jview_seq(a).len() == a.len(),
        forall|i: int| 0 <= i < a.len() ==> jview_seq(a)[i] == jview(#[trigger] a[i]),
    decreases a.len(),
{
    if a.len() > 0 {
        let rest = a.subrange(1, a.len() as int);
        lemma_jview_seq(rest);
        assert forall|i: int| 0 <= i < a.len() implies jview_seq(a)[i] == jview(#[trigger] a[i]) by {
            if i > 0 {
                assert(rest[i - 1] == a[i]);
            }
        }
    }
}

/// `jview_pairs` maps the view pair by pair.
pub proof fn lemma_jview_pairs(m: Seq<(Vec<u8>, Json)>)
    ensures
        jview_pairs(m).len() == m.len(),
        forall|i: int|
            0 <= i < m.len() ==> jview_pairs(m)[i] == (#[trigger] m[i].0@, jview(m[i].1)),
    decreases m.len(),
{
    if m.len() > 0 {
        let rest = m.subrange(1, m.len() as int);
        lemma_jview_pairs(rest);
        assert forall|i: int|
            0 <= i < m.len() implies jview_pairs(m)[i] == (#[trigger] m[i].0@, jview(m[i].1)) by {
            if i > 0 {
                assert(rest[i - 1] == m[i]);
            }
        }
    }
}

/// A value is valid when no number in it writes a minus sign before zero;
/// every value the parser returns is valid, and valid values round-trip.
pub open spec fn valid_v(v: JsonV) -> bool
    decreases v,
{
    match v {
        JsonV::Null => true,
        JsonV::Bool(_) => true,
        JsonV::Num { neg, mantissa, scale: _ } => neg ==> mantissa > 0,
        JsonV::Str(_) => true,
        JsonV::Arr(es) => forall|i: int| 0 <= i < es.len() ==> valid_v(#[trigger] es[i]),
        JsonV::Obj(ms) => forall|i: int| 0 <= i < ms.len() ==> valid_v(#[trigger] ms[i].1),
    }
}

impl Json {
    /// Structural equality of the documents the two values denote.
    #[verifier::loop_isolation(false)]
    pub fn deep_eq(&self, other: &Json) -> (r: bool)
        ensures
            r == (self@ == other@),
        decreases *self,
    {
        match (self, other) {
            (Json::Null, Json::Null) => true,
            (Json::Bool(a), Json::Bool(b)) => a == b,
            (
                Json::Num { neg: n1, mantissa: m1, scale: s1 },
                Json::Num { neg: n2, mantissa: m2, scale: s2 },
            ) => n1 == n2 && m1 == m2 && s1 == s2,
            (Json::Str(a), Json::Str(b)) => eq_bytes(a, b),
            (Json::Arr(a), Json::Arr(b)) => {
                proof {
                    lemma_jview_seq(a@);
                    lemma_jview_seq(b@);
                }
                if a.len() != b.len() {
                    false
                } else {
                    let n = a.len();
                    let mut i: usize = 0;
                    let mut same = true;
                    while i < n
                        invariant
                            i <= n,
                            same == (forall|k: int|
                                0 <= k < i ==> jview(a@[k]) == jview(b@[k])),
                        decreases n - i,
                    {
                        if !a[i].deep_eq(&b[i]) {
                            same = false;
                            proof {
                                assert(jview(a@[i as int]) != jview(b@[i as int]));
                            }
                            i = n;
                        } else {
                            i = i + 1;
                        }
                    }
                    proof {
                        if same {
                            assert forall|k: int|
                                0 <= k < n implies jview_seq(a@)[k] == jview_seq(b@)[k] by {
                                assert(jview(a@[k]) == jview(b@[k]));
                            }
                            assert(jview_seq(a@) =~= jview_seq(b@));
                        } else {
                            let k = choose|k: int|
                                0 <= k < n && jview(a@[k]) != jview(b@[k]);
                            assert(jview_seq(a@)[k] != jview_seq(b@)[k]);
                        }
                    }
                    same
                }
            },
            (Json::Obj(a), Json::Obj(b)) => {
                proof {
                    lemma_jview_pairs(a@);
                    lemma_jview_pairs(b@);
                }
                if a.len() != b.len() {
                    false
                } else {
                    let n = a.len();
                    let mut i: usize = 0;
                    let mut same = true;
                    while i < n
                        invariant
                            i <= n,
                            same == (forall|k: int|
                                0 <= k < i ==> a@[k].0@ == b@[k].0@ && jview(a@[k].1) == jview(
                                    b@[k].1,
                                )),
                        decreases n - i,
                    {
                        let keys_eq = eq_bytes(&a[i].0, &b[i].0);
                        if !keys_eq || !a[i].1.deep_eq(&b[i].1) {
                            same = false;
                            proof {
                                assert(!(a@[i as int].0@ == b@[i as int].0@ && jview(
                                    a@[i as int].1,
                                ) == jview(b@[i as int].1)));
                            }
                            i = n;
                        } else {
                            i = i + 1;
                        }
                    }
                    proof {
                        if same {
                            assert forall|k: int|
                                0 <= k < n implies jview_pairs(a@)[k] == jview_pairs(b@)[k] by {
                                assert(a@[k].0@ == b@[k].0@ && jview(a@[k].1) == jview(b@[k].1));
                            }
                            assert(jview_pairs(a@) =~= jview_pairs(b@));
                        } else {
                            let k = choose|k: int|
                                0 <= k < n && !(a@[k].0@ == b@[k].0@ && jview(a@[k].1) == jview(
                                    b@[k].1,
                                ));
                            assert(jview_pairs(a@)[k] != jview_pairs(b@)[k]);
                        }
                    }
                    same
                }
            },
            _ => false,
        }
    }
}

/// Byte-for-byte equality of two byte vectors.
pub fn eq_bytes(a: &Vec<u8>, b: &Vec<u8>) -> (r: bool)
    ensures
        r == (a@ == b@),
{
    if a.len() != b.len() {
        return false;
    }
    let mut i: usize = 0;
    while i < a.len()
        invariant
            a@.len() == b@.len(),
            i <= a@.len(),
            forall|k: int| 0 <= k < i ==> a@[k] == b@[k],
        decreases a@.len() - i,
    {
        if a[i] != b[i] {
            return false;
        }
        i = i + 1;
    }
    proof {
        assert(a@ =~= b@);
    }
    true
}

} // verus!
