//! Function and event param types.
use vstd::prelude::*;

verus! {

/// The mathematical shape of a param type: a tree whose tuple nodes hold a
/// sequence of children.
pub enum ParamModel {
    /// Unsigned integer of the given bit width.
    Uint(nat),
    /// Signed integer of the given bit width.
    Int(nat),
    Address,
    Bool,
    /// Byte vector of the given length.
    FixedBytes(nat),
    /// Array of the given number of elements.
    FixedArray(Box<ParamModel>, nat),
    Bytes,
    /// UTF-8 text of any length.
    Str,
    /// Array of any number of elements.
    Array(Box<ParamModel>),
    /// Ordered fields.
    Tuple(Seq<ParamModel>),
}

/// Function and event param types.
#[derive(Debug)]
pub enum ParamType {
    // elementary types:
    /// Unsigned integer.
    Uint(usize),
    /// Two's complement signed integer.
    Int(usize),
    /// Address.
    Address,
    /// Boolean.
    Bool,
    /// Vector of bytes with fixed size.
    FixedBytes(usize),
    // fixed-size array types:
    /// Array with fixed size.
    FixedArray(Box<ParamType>, usize),
    // non-fixed-size types:
    /// Bytes.
    Bytes,
    /// String.
    String,
    /// Array of unknown size.
    Array(Box<ParamType>),
    /// Tuple.
    Tuple(Vec<ParamType>),
}

impl ParamModel {
    /// Whether a value of this type is laid out through an offset.
    pub open spec fn is_dynamic(self) -> bool
        decreases self,
    {
        match self {
            ParamModel::Bytes | ParamModel::Str | ParamModel::Array(_) => true,
            ParamModel::FixedArray(elem, _) => elem.is_dynamic(),
            ParamModel::Tuple(fields) => any_dynamic(fields),
            _ => false,
        }
    }

    /// Whether the empty byte string is by itself an encoding of a value of
    /// this type: only for zero-length fixed bytes and zero-length fixed
    /// arrays, whatever their element.
    pub open spec fn is_empty_bytes_valid_encoding(self) -> bool {
        ||| self matches ParamModel::FixedBytes(n) && n == 0
        ||| self matches ParamModel::FixedArray(_, n) && n == 0
    }
}

/// Whether some type of the sequence is dynamic.
pub open spec fn any_dynamic(fields: Seq<ParamModel>) -> bool
    decreases fields,
{
    if fields.len() == 0 {
        false
    } else {
        any_dynamic(fields.drop_last()) || fields.last().is_dynamic()
    }
}

/// A sequence of types is dynamic exactly when one of its members is.
pub proof fn lemma_any_dynamic(fields: Seq<ParamModel>)
    ensures
        any_dynamic(fields) <==> exists|i: int| 0 <= i < fields.len() && (#[trigger] fields[i]).is_dynamic(),
    decreases fields.len(),
{
    if fields.len() > 0 {
        let init = fields.drop_last();
        lemma_any_dynamic(init);
        if any_dynamic(init) {
            let i = choose|i: int| 0 <= i < init.len() && (#[trigger] init[i]).is_dynamic();
            assert(fields[i] == init[i]);
        }
        if exists|i: int| 0 <= i < fields.len() && (#[trigger] fields[i]).is_dynamic() {
            let i = choose|i: int| 0 <= i < fields.len() && (#[trigger] fields[i]).is_dynamic();
            if i < init.len() {
                assert(fields[i] == init[i]);
            }
        }
    }
}

impl ParamType {
    /// Returns whether a zero length byte slice (`0x`) is
    /// a valid encoded form of this param type.
    pub fn is_empty_bytes_valid_encoding(&self) -> (r: bool)
        ensures
            r == self@.is_empty_bytes_valid_encoding(),
    {
        match self {
            ParamType::FixedBytes(len) => *len == 0,
            ParamType::FixedArray(_, len) => *len == 0,
            _ => false,
        }
    }

    /// Returns whether this param type is dynamic, that is encoded through
    /// an offset rather than in place.
    pub fn is_dynamic(&self) -> (r: bool)
        ensures
            r == self@.is_dynamic(),
        decreases self,
    {
        match self {
            ParamType::Bytes | ParamType::String | ParamType::Array(_) => true,
            ParamType::FixedArray(param, _) => param.is_dynamic(),
            ParamType::Tuple(params) => {
                proof {
                    lemma_view_fields(params@);
                }
                let mut i: usize = 0;
                while i < params.len()
                    invariant
                        *self == ParamType::Tuple(*params),
                        self@ == ParamModel::Tuple(view_fields(params@)),
                        view_fields(params@).len() == params@.len(),
                        forall|j: int| 0 <= j < params@.len() ==> #[trigger] view_fields(params@)[j] == params@[j]@,
                        i <= params.len(),
                        forall|j: int| 0 <= j < i ==> !(#[trigger] params@[j]@).is_dynamic(),
                    decreases params.len() - i,
                {
                    proof {
                        assert(decreases_to!(self => params@[i as int]));
                    }
                    if params[i].is_dynamic() {
                        proof {
                            lemma_any_dynamic(view_fields(params@));
                            assert(view_fields(params@)[i as int].is_dynamic());
                        }
                        return true;
                    }
                    i += 1;
                }
                proof {
                    lemma_any_dynamic(view_fields(params@));
                }
                false
            },
            _ => false,
        }
    }
}

impl View for ParamType {
    type V = ParamModel;

    open spec fn view(&self) -> ParamModel
        decreases self,
    {
        match self {
            ParamType::Uint(n) => ParamModel::Uint(*n as nat),
            ParamType::Int(n) => ParamModel::Int(*n as nat),
            ParamType::Address => ParamModel::Address,
            ParamType::Bool => ParamModel::Bool,
            ParamType::FixedBytes(n) => ParamModel::FixedBytes(*n as nat),
            ParamType::FixedArray(elem, n) => ParamModel::FixedArray(Box::new((**elem)@), *n as nat),
            ParamType::Bytes => ParamModel::Bytes,
            ParamType::String => ParamModel::Str,
            ParamType::Array(elem) => ParamModel::Array(Box::new((**elem)@)),
            ParamType::Tuple(fields) => ParamModel::Tuple(view_fields(fields@)),
        }
    }
}

/// The models of a sequence of param types, in order.
pub open spec fn view_fields(fields: Seq<ParamType>) -> Seq<ParamModel>
    decreases fields,
{
    if fields.len() == 0 {
        Seq::empty()
    } else {
        view_fields(fields.drop_last()).push(fields.last()@)
    }
}

/// `view_fields` models each field in its place.
pub proof fn lemma_view_fields(fields: Seq<ParamType>)
    ensures
        view_fields(fields).len() == fields.len(),
        forall|i: int| 0 <= i < fields.len() ==> #[trigger] view_fields(fields)[i] == fields[i]@,
    decreases fields.len(),
{
    if fields.len() > 0 {
        let init = fields.drop_last();
        lemma_view_fields(init);
        assert(view_fields(fields) == view_fields(init).push(fields.last()@));
        assert forall|i: int| 0 <= i < init.len() implies fields[i] == #[trigger] init[i] by {}
    } else {
        assert(view_fields(fields) == Seq::<ParamModel>::empty());
    }
}

/// Whether `a` and `b` are the same type, compared node by node.
fn structurally_equal(a: &ParamType, b: &ParamType) -> (r: bool)
    ensures
        r == (a@ == b@),
    decreases a,
{
    match (a, b) {
        (ParamType::Uint(x), ParamType::Uint(y)) => *x == *y,
        (ParamType::Int(x), ParamType::Int(y)) => *x == *y,
        (ParamType::Address, ParamType::Address) => true,
        (ParamType::Bool, ParamType::Bool) => true,
        (ParamType::FixedBytes(x), ParamType::FixedBytes(y)) => *x == *y,
        (ParamType::FixedArray(x, m), ParamType::FixedArray(y, n)) => {
            *m == *n && structurally_equal(x, y)
        },
        (ParamType::Bytes, ParamType::Bytes) => true,
        (ParamType::String, ParamType::String) => true,
        (ParamType::Array(x), ParamType::Array(y)) => structurally_equal(x, y),
        (ParamType::Tuple(xs), ParamType::Tuple(ys)) => {
            proof {
                lemma_view_fields(xs@);
                lemma_view_fields(ys@);
            }
            if xs.len() != ys.len() {
                assert(view_fields(xs@).len() != view_fields(ys@).len());
                return false;
            }
            let mut i: usize = 0;
            while i < xs.len()
                invariant
                    *a == ParamType::Tuple(*xs),
                    *b == ParamType::Tuple(*ys),
                    xs.len() == ys.len(),
                    view_fields(xs@).len() == xs@.len(),
                    view_fields(ys@).len() == ys@.len(),
                    forall|j: int| 0 <= j < xs@.len() ==> #[trigger] view_fields(xs@)[j] == xs@[j]@,
                    forall|j: int| 0 <= j < ys@.len() ==> #[trigger] view_fields(ys@)[j] == ys@[j]@,
                    i <= xs.len(),
                    forall|j: int| 0 <= j < i ==> xs@[j]@ == #[trigger] ys@[j]@,
                decreases xs.len() - i,
            {
                proof {
                    assert(decreases_to!(*a => (*a)->Tuple_0));
                    assert(decreases_to!(*xs => xs[i as int]));
                }
                if !structurally_equal(&xs[i], &ys[i]) {
                    assert(view_fields(xs@)[i as int] != view_fields(ys@)[i as int]);
                    return false;
                }
                i += 1;
            }
            assert(view_fields(xs@) =~= view_fields(ys@));
            true
        },
        _ => false,
    }
}

impl PartialEq for ParamType {
    fn eq(&self, other: &ParamType) -> bool {
        structurally_equal(self, other)
    }
}

impl vstd::std_specs::cmp::PartialEqSpecImpl for ParamType {
    open spec fn obeys_eq_spec() -> bool {
        true
    }

    open spec fn eq_spec(&self, other: &ParamType) -> bool {
        self@ == other@
    }
}

/// A fresh copy of `t`, node by node.
fn copy_of(t: &ParamType) -> (r: ParamType)
    ensures
        r@ == t@,
    decreases t,
{
    match t {
        ParamType::Uint(n) => ParamType::Uint(*n),
        ParamType::Int(n) => ParamType::Int(*n),
        ParamType::Address => ParamType::Address,
        ParamType::Bool => ParamType::Bool,
        ParamType::FixedBytes(n) => ParamType::FixedBytes(*n),
        ParamType::FixedArray(elem, n) => ParamType::FixedArray(Box::new(copy_of(elem)), *n),
        ParamType::Bytes => ParamType::Bytes,
        ParamType::String => ParamType::String,
        ParamType::Array(elem) => ParamType::Array(Box::new(copy_of(elem))),
        ParamType::Tuple(fields) => {
            proof {
                lemma_view_fields(fields@);
            }
            let mut copies: Vec<ParamType> = Vec::new();
            let mut i: usize = 0;
            while i < fields.len()
                invariant
                    *t == ParamType::Tuple(*fields),
                    view_fields(fields@).len() == fields@.len(),
                    forall|j: int| 0 <= j < fields@.len() ==> #[trigger] view_fields(fields@)[j] == fields@[j]@,
                    i <= fields.len(),
                    copies@.len() == i,
                    forall|j: int| 0 <= j < i ==> (#[trigger] copies@[j])@ == fields@[j]@,
                decreases fields.len() - i,
            {
                proof {
                    assert(decreases_to!(*t => (*t)->Tuple_0));
                    assert(decreases_to!(*fields => fields[i as int]));
                }
                let field = copy_of(&fields[i]);
                copies.push(field);
                i += 1;
            }
            proof {
                lemma_view_fields(copies@);
                assert(view_fields(copies@) =~= view_fields(fields@));
            }
            ParamType::Tuple(copies)
        },
    }
}

impl Clone for ParamType {
    fn clone(&self) -> (r: ParamType)
        ensures
            r@ == self@,
    {
        copy_of(self)
    }
}

} // verus!
