//! The construction protocol: a builder supplies one operation per node
//! kind, and `construct` dispatches a node to the matching one. The standard
//! builder resolves scalars under the core schema and builds sequences and
//! mappings child by child, stopping at the first error.
use vstd::prelude::*;
use crate::data::{
    StandardValue, YamlError, YamlStandardData, data_view, items_view, lemma_items_view,
    lemma_pairs_view, pairs_view, result_view,
};
use crate::node::{YamlMappingData, YamlNode, YamlScalarData, YamlSequenceData};
use crate::scalar::{resolution, resolve_scalar};

verus! {

/// A builder of values of type `T` from document nodes, failing with `E`.
pub trait YamlConstructor<T, E>: Sized {
    /// `r` is what this builder may return for `scalar`.
    spec fn scalar_result(&self, scalar: YamlScalarData, r: Result<T, E>) -> bool;

    /// `r` is what this builder may return for `sequence`.
    spec fn sequence_result(&self, sequence: YamlSequenceData, r: Result<T, E>) -> bool;

    /// `r` is what this builder may return for `mapping`.
    spec fn mapping_result(&self, mapping: YamlMappingData, r: Result<T, E>) -> bool;

    fn construct_scalar(&self, scalar: YamlScalarData) -> (r: Result<T, E>)
        ensures
            self.scalar_result(scalar, r),
    ;

    fn construct_sequence(&self, sequence: YamlSequenceData) -> (r: Result<T, E>)
        ensures
            self.sequence_result(sequence, r),
    ;

    fn construct_mapping(&self, mapping: YamlMappingData) -> (r: Result<T, E>)
        ensures
            self.mapping_result(mapping, r),
    ;

    /// Hands the node to the operation for its kind and returns its result.
    fn construct(&self, node: YamlNode) -> (r: Result<T, E>)
        ensures
            match node {
                YamlNode::YamlScalarNode(s) => self.scalar_result(s, r),
                YamlNode::YamlSequenceNode(q) => self.sequence_result(q, r),
                YamlNode::YamlMappingNode(m) => self.mapping_result(m, r),
            },
    {
        match node {
            YamlNode::YamlScalarNode(scalar) => self.construct_scalar(scalar),
            YamlNode::YamlSequenceNode(sequence) => self.construct_sequence(sequence),
            YamlNode::YamlMappingNode(mapping) => self.construct_mapping(mapping),
        }
    }
}

/// What the standard builder makes of a node: a scalar resolved under the
/// core schema; a sequence or mapping with every child constructed in
/// document order, or else the first error met.
pub open spec fn construction(n: YamlNode) -> Result<StandardValue, Seq<char>>
    decreases n, 0nat,
{
    match n {
        YamlNode::YamlScalarNode(s) => resolution(s.value@, s.style),
        YamlNode::YamlSequenceNode(q) => match items_construction(q.values@, q.values@.len()) {
            Ok(vs) => Ok(StandardValue::Sequence(vs)),
            Err(e) => Err(e),
        },
        YamlNode::YamlMappingNode(m) => match pairs_construction(m.pairs@, m.pairs@.len()) {
            Ok(ps) => Ok(StandardValue::Mapping(ps)),
            Err(e) => Err(e),
        },
    }
}

/// The first `k` nodes of `s` constructed in order, or the first error.
pub open spec fn items_construction(s: Seq<YamlNode>, k: nat) -> Result<
    Seq<StandardValue>,
    Seq<char>,
>
    decreases s, k,
{
    if k == 0 || k > s.len() {
        Ok(Seq::empty())
    } else {
        match items_construction(s, (k - 1) as nat) {
            Err(e) => Err(e),
            Ok(vs) => match construction(s[k - 1]) {
                Err(e) => Err(e),
                Ok(v) => Ok(vs.push(v)),
            },
        }
    }
}

/// A pair's key constructed, then its value, or the first error.
pub open spec fn pair_construction(p: (YamlNode, YamlNode)) -> Result<
    (StandardValue, StandardValue),
    Seq<char>,
>
    decreases p, 0nat,
{
    match construction(p.0) {
        Err(e) => Err(e),
        Ok(k) => match construction(p.1) {
            Err(e) => Err(e),
            Ok(v) => Ok((k, v)),
        },
    }
}

/// The first `k` pairs of `s` constructed in order, or the first error.
pub open spec fn pairs_construction(s: Seq<(YamlNode, YamlNode)>, k: nat) -> Result<
    Seq<(StandardValue, StandardValue)>,
    Seq<char>,
>
    decreases s, k,
{
    if k == 0 || k > s.len() {
        Ok(Seq::empty())
    } else {
        match pairs_construction(s, (k - 1) as nat) {
            Err(e) => Err(e),
            Ok(ps) => match pair_construction(s[k - 1]) {
                Err(e) => Err(e),
                Ok(p) => Ok(ps.push(p)),
            },
        }
    }
}

/// Once the first `k` items fail, every longer prefix fails with that error.
pub proof fn lemma_items_error_persists(s: Seq<YamlNode>, k: nat, j: nat)
    requires
        k <= j <= s.len(),
        items_construction(s, k) is Err,
    ensures
        items_construction(s, j) == items_construction(s, k),
    decreases j,
{
    if j > k {
        lemma_items_error_persists(s, k, (j - 1) as nat);
    }
}

/// Once the first `k` pairs fail, every longer prefix fails with that error.
pub proof fn lemma_pairs_error_persists(s: Seq<(YamlNode, YamlNode)>, k: nat, j: nat)
    requires
        k <= j <= s.len(),
        pairs_construction(s, k) is Err,
    ensures
        pairs_construction(s, j) == pairs_construction(s, k),
    decreases j,
{
    if j > k {
        lemma_pairs_error_persists(s, k, (j - 1) as nat);
    }
}

/// Builds the standard value of `node`, depth first, in document order.
fn construct_node(node: &YamlNode) -> (r: Result<YamlStandardData, YamlError>)
    ensures
        result_view(r) == construction(*node),
    decreases node,
{
    match node {
        YamlNode::YamlScalarNode(scalar) => resolve_scalar(scalar.value.as_str(), scalar.style),
        YamlNode::YamlSequenceNode(sequence) => {
            let values = &sequence.values;
            let mut out: Vec<YamlStandardData> = Vec::new();
            let mut i: usize = 0;
            while i < values.len()
                invariant
                    i <= values.len(),
                    *node == YamlNode::YamlSequenceNode(*sequence),
                    values == &sequence.values,
                    out@.len() == i,
                    items_construction(values@, i as nat) == Ok::<
                        Seq<StandardValue>,
                        Seq<char>,
                    >(items_view(out@, i as nat)),
                decreases values.len() - i,
            {
                proof {
                    assert(decreases_to!(*node => (*node)->YamlSequenceNode_0));
                    assert(decreases_to!(*sequence => sequence.values));
                    assert(decreases_to!(sequence.values => sequence.values@));
                    assert(decreases_to!(sequence.values@ => sequence.values@[i as int]));
                }
                let child = construct_node(&values[i]);
                match child {
                    Err(e) => {
                        proof {
                            lemma_items_error_persists(values@, (i + 1) as nat, values@.len());
                        }
                        return Err(e);
                    },
                    Ok(v) => {
                        let ghost before = out@;
                        out.push(v);
                        proof {
                            lemma_items_view(before, i as nat);
                            lemma_items_view(out@, (i + 1) as nat);
                            assert(items_view(out@, (i + 1) as nat) =~= items_view(
                                before,
                                i as nat,
                            ).push(data_view(v)));
                        }
                    },
                }
                i = i + 1;
            }
            Ok(YamlStandardData::YamlSequence(out))
        },
        YamlNode::YamlMappingNode(mapping) => {
            let pairs = &mapping.pairs;
            let mut out: Vec<(YamlStandardData, YamlStandardData)> = Vec::new();
            let mut i: usize = 0;
            while i < pairs.len()
                invariant
                    i <= pairs.len(),
                    *node == YamlNode::YamlMappingNode(*mapping),
                    pairs == &mapping.pairs,
                    out@.len() == i,
                    pairs_construction(pairs@, i as nat) == Ok::<
                        Seq<(StandardValue, StandardValue)>,
                        Seq<char>,
                    >(pairs_view(out@, i as nat)),
                decreases pairs.len() - i,
            {
                proof {
                    assert(decreases_to!(*node => (*node)->YamlMappingNode_0));
                    assert(decreases_to!(*mapping => mapping.pairs));
                    assert(decreases_to!(mapping.pairs => mapping.pairs@));
                    assert(decreases_to!(mapping.pairs@ => mapping.pairs@[i as int]));
                    assert(decreases_to!(mapping.pairs@[i as int] => mapping.pairs@[i as int].0));
                    assert(decreases_to!(mapping.pairs@[i as int] => mapping.pairs@[i as int].1));
                }
                let key = construct_node(&pairs[i].0);
                match key {
                    Err(e) => {
                        proof {
                            assert(pair_construction(pairs@[i as int]) == Err::<
                                (StandardValue, StandardValue),
                                Seq<char>,
                            >(e@));
                            lemma_pairs_error_persists(pairs@, (i + 1) as nat, pairs@.len());
                        }
                        return Err(e);
                    },
                    Ok(k) => {
                        let value = construct_node(&pairs[i].1);
                        match value {
                            Err(e) => {
                                proof {
                                    lemma_pairs_error_persists(
                                        pairs@,
                                        (i + 1) as nat,
                                        pairs@.len(),
                                    );
                                }
                                return Err(e);
                            },
                            Ok(v) => {
                                let ghost before = out@;
                                out.push((k, v));
                                proof {
                                    lemma_pairs_view(before, i as nat);
                                    lemma_pairs_view(out@, (i + 1) as nat);
                                    assert(pairs_view(out@, (i + 1) as nat) =~= pairs_view(
                                        before,
                                        i as nat,
                                    ).push((data_view(k), data_view(v))));
                                }
                            },
                        }
                    },
                }
                i = i + 1;
            }
            Ok(YamlStandardData::YamlMapping(out))
        },
    }
}

/// The builder of `YamlStandardData` values.
pub struct YamlStandardConstructor;

impl YamlStandardConstructor {
    pub fn new() -> YamlStandardConstructor {
        YamlStandardConstructor
    }
}

impl YamlConstructor<YamlStandardData, YamlError> for YamlStandardConstructor {
    open spec fn scalar_result(
        &self,
        scalar: YamlScalarData,
        r: Result<YamlStandardData, YamlError>,
    ) -> bool {
        result_view(r) == construction(YamlNode::YamlScalarNode(scalar))
    }

    open spec fn sequence_result(
        &self,
        sequence: YamlSequenceData,
        r: Result<YamlStandardData, YamlError>,
    ) -> bool {
        result_view(r) == construction(YamlNode::YamlSequenceNode(sequence))
    }

    open spec fn mapping_result(
        &self,
        mapping: YamlMappingData,
        r: Result<YamlStandardData, YamlError>,
    ) -> bool {
        result_view(r) == construction(YamlNode::YamlMappingNode(mapping))
    }

    fn construct_scalar(&self, scalar: YamlScalarData) -> (r: Result<YamlStandardData, YamlError>) {
        resolve_scalar(scalar.value.as_str(), scalar.style)
    }

    fn construct_sequence(&self, sequence: YamlSequenceData) -> (r: Result<
        YamlStandardData,
        YamlError,
    >) {
        construct_node(&YamlNode::YamlSequenceNode(sequence))
    }

    fn construct_mapping(&self, mapping: YamlMappingData) -> (r: Result<
        YamlStandardData,
        YamlError,
    >) {
        construct_node(&YamlNode::YamlMappingNode(mapping))
    }
}

/// The first `k` pairs of `s`, where every key and value constructs, are
/// constructed to their results in order.
proof fn lemma_pairs_all_ok(s: Seq<(YamlNode, YamlNode)>, k: nat)
    requires
        k <= s.len(),
        forall|i: int|
            0 <= i < s.len() ==> construction(#[trigger] s[i].0) is Ok && construction(s[i].1) is Ok,
    ensures
        pairs_construction(s, k) == Ok::<Seq<(StandardValue, StandardValue)>, Seq<char>>(
            Seq::new(k, |i: int| (construction(s[i].0)->Ok_0, construction(s[i].1)->Ok_0)),
        ),
    decreases k,
{
    if k > 0 {
        lemma_pairs_all_ok(s, (k - 1) as nat);
        let p = s[k - 1];
        assert(construction(p.0) is Ok && construction(p.1) is Ok);
        assert(pair_construction(p) == Ok::<(StandardValue, StandardValue), Seq<char>>(
            (construction(p.0)->Ok_0, construction(p.1)->Ok_0),
        ));
        assert(Seq::new(
            (k - 1) as nat,
            |i: int| (construction(s[i].0)->Ok_0, construction(s[i].1)->Ok_0),
        ).push((construction(p.0)->Ok_0, construction(p.1)->Ok_0)) =~= Seq::new(
            k,
            |i: int| (construction(s[i].0)->Ok_0, construction(s[i].1)->Ok_0),
        ));
    } else {
        assert(Seq::new(0, |i: int| (construction(s[i].0)->Ok_0, construction(s[i].1)->Ok_0))
            =~= Seq::empty());
    }
}

/// A mapping whose keys and values all construct is constructed to its
/// pairs, each key with its value, in document order.
pub proof fn lemma_mapping_all_pairs(mapping: YamlMappingData)
    requires
        forall|i: int|
            0 <= i < mapping.pairs@.len() ==> construction(#[trigger] mapping.pairs@[i].0) is Ok
                && construction(mapping.pairs@[i].1) is Ok,
    ensures
        construction(YamlNode::YamlMappingNode(mapping)) == Ok::<StandardValue, Seq<char>>(
            StandardValue::Mapping(
                Seq::new(
                    mapping.pairs@.len(),
                    |i: int|
                        (
                            construction(mapping.pairs@[i].0)->Ok_0,
                            construction(mapping.pairs@[i].1)->Ok_0,
                        ),
                ),
            ),
        ),
{
    lemma_pairs_all_ok(mapping.pairs@, mapping.pairs@.len());
}

/// Where every pair before pair `k` constructs and pair `k` does not, the
/// mapping fails with pair `k`'s error: its key's, else its value's.
pub proof fn lemma_mapping_first_failure(mapping: YamlMappingData, k: int)
    requires
        0 <= k < mapping.pairs@.len(),
        forall|i: int|
            0 <= i < k ==> construction(#[trigger] mapping.pairs@[i].0) is Ok && construction(
                mapping.pairs@[i].1,
            ) is Ok,
        construction(mapping.pairs@[k].0) is Err || construction(mapping.pairs@[k].1) is Err,
    ensures
        construction(YamlNode::YamlMappingNode(mapping)) == if construction(
            mapping.pairs@[k].0,
        ) is Err {
            construction(mapping.pairs@[k].0)
        } else {
            construction(mapping.pairs@[k].1)
        },
{
    let s = mapping.pairs@;
    let prefix = s.subrange(0, k);
    assert forall|i: int| 0 <= i < prefix.len() implies construction(#[trigger] prefix[i].0) is Ok
        && construction(prefix[i].1) is Ok by {
        assert(prefix[i] == s[i]);
    }
    lemma_pairs_all_ok(prefix, k as nat);
    lemma_pairs_prefix(s, prefix, k as nat);
    let first = if construction(s[k].0) is Err {
        construction(s[k].0)
    } else {
        construction(s[k].1)
    };
    assert(pair_construction(s[k]) is Err);
    assert(pair_construction(s[k])->Err_0 == first->Err_0);
    assert(pairs_construction(s, (k + 1) as nat) == Err::<
        Seq<(StandardValue, StandardValue)>,
        Seq<char>,
    >(first->Err_0));
    lemma_pairs_error_persists(s, (k + 1) as nat, s.len());
}

/// The first `k` pairs construct alike in two sequences that agree on them.
proof fn lemma_pairs_prefix(s: Seq<(YamlNode, YamlNode)>, t: Seq<(YamlNode, YamlNode)>, k: nat)
    requires
        k <= s.len(),
        k <= t.len(),
        forall|i: int| 0 <= i < k ==> s[i] == t[i],
    ensures
        pairs_construction(s, k) == pairs_construction(t, k),
    decreases k,
{
    if k > 0 {
        lemma_pairs_prefix(s, t, (k - 1) as nat);
    }
}

} // verus!
