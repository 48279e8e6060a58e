//! The standard builder's output values, and their mathematical models.
use vstd::prelude::*;

verus! {

/// A floating-point scalar. A finite value keeps the literal as written: its
/// binary rounding is left to the consumer of the value.
#[derive(Debug, PartialEq)]
pub enum YamlFloatValue {
    YamlFiniteFloat(String),
    YamlInfinity,
    YamlNegInfinity,
    YamlNaN,
}

/// A value produced by the standard builder.
#[derive(Debug, PartialEq)]
pub enum YamlStandardData {
    YamlInteger(i64),
    YamlFloat(YamlFloatValue),
    YamlString(String),
    YamlNull,
    YamlBool(bool),
    YamlSequence(Vec<YamlStandardData>),
    YamlMapping(Vec<(YamlStandardData, YamlStandardData)>),
}

/// Why the standard builder could not construct a value.
#[derive(Debug, PartialEq)]
pub enum YamlError {
    /// An integer literal whose value does not fit in an `i64`; holds the literal.
    YamlIntegerOverflow(String),
}

/// Model of a floating-point scalar.
pub enum FloatValue {
    Finite(Seq<char>),
    PosInfinity,
    NegInfinity,
    NaN,
}

/// Model of a constructed value.
pub enum StandardValue {
    Integer(int),
    Float(FloatValue),
    Text(Seq<char>),
    Null,
    Bool(bool),
    Sequence(Seq<StandardValue>),
    Mapping(Seq<(StandardValue, StandardValue)>),
}

pub open spec fn float_view(f: YamlFloatValue) -> FloatValue {
    match f {
        YamlFloatValue::YamlFiniteFloat(s) => FloatValue::Finite(s@),
        YamlFloatValue::YamlInfinity => FloatValue::PosInfinity,
        YamlFloatValue::YamlNegInfinity => FloatValue::NegInfinity,
        YamlFloatValue::YamlNaN => FloatValue::NaN,
    }
}

/// The model of a value.
pub open spec fn data_view(d: YamlStandardData) -> StandardValue
    decreases d, 0nat,
{
    match d {
        YamlStandardData::YamlInteger(i) => StandardValue::Integer(i as int),
        YamlStandardData::YamlFloat(f) => StandardValue::Float(float_view(f)),
        YamlStandardData::YamlString(s) => StandardValue::Text(s@),
        YamlStandardData::YamlNull => StandardValue::Null,
        YamlStandardData::YamlBool(b) => StandardValue::Bool(b),
        YamlStandardData::YamlSequence(v) => StandardValue::Sequence(items_view(v@, v@.len())),
        YamlStandardData::YamlMapping(v) => StandardValue::Mapping(pairs_view(v@, v@.len())),
    }
}

/// The models of the first `k` items of `s`.
pub open spec fn items_view(s: Seq<YamlStandardData>, k: nat) -> Seq<StandardValue>
    decreases s, k,
{
    if k == 0 || k > s.len() {
        Seq::empty()
    } else {
        items_view(s, (k - 1) as nat).push(data_view(s[k - 1]))
    }
}

/// The models of the first `k` pairs of `s`.
pub open spec fn pairs_view(s: Seq<(YamlStandardData, YamlStandardData)>, k: nat) -> Seq<
    (StandardValue, StandardValue),
>
    decreases s, k,
{
    if k == 0 || k > s.len() {
        Seq::empty()
    } else {
        pairs_view(s, (k - 1) as nat).push((data_view(s[k - 1].0), data_view(s[k - 1].1)))
    }
}

impl View for YamlStandardData {
    type V = StandardValue;

    open spec fn view(&self) -> StandardValue {
        data_view(*self)
    }
}

impl View for YamlError {
    type V = Seq<char>;

    /// The literal that could not be constructed.
    open spec fn view(&self) -> Seq<char> {
        match self {
            YamlError::YamlIntegerOverflow(s) => s@,
        }
    }
}

/// The model of a construction result.
pub open spec fn result_view(r: Result<YamlStandardData, YamlError>) -> Result<
    StandardValue,
    Seq<char>,
> {
    match r {
        Ok(d) => Ok(d@),
        Err(e) => Err(e@),
    }
}

/// The models of the first `k` items, one per item, in order.
pub proof fn lemma_items_view(s: Seq<YamlStandardData>, k: nat)
    requires
        k <= s.len(),
    ensures
        items_view(s, k).len() == k,
        forall|j: int| 0 <= j < k ==> #[trigger] items_view(s, k)[j] == data_view(s[j]),
    decreases k,
{
    if k > 0 {
        lemma_items_view(s, (k - 1) as nat);
    }
}

/// The models of the first `k` pairs, one per pair, in order.
pub proof fn lemma_pairs_view(s: Seq<(YamlStandardData, YamlStandardData)>, k: nat)
    requires
        k <= s.len(),
    ensures
        pairs_view(s, k).len() == k,
        forall|j: int|
            0 <= j < k ==> #[trigger] pairs_view(s, k)[j] == (
                data_view(s[j].0),
                data_view(s[j].1),
            ),
    decreases k,
{
    if k > 0 {
        lemma_pairs_view(s, (k - 1) as nat);
    }
}

} // verus!
