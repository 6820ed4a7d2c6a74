//! Canonical signatures of param types.
use vstd::prelude::*;
use vstd::string::*;

use crate::decimal::{decimal, write_decimal};
use crate::param_type::{lemma_view_fields, view_fields, ParamModel, ParamType};

verus! {

impl ParamModel {
    /// The canonical signature of the type: its one textual form, used for
    /// display and as the input of selector hashing.
    pub open spec fn signature(self) -> Seq<char>
        decreases self,
    {
        match self {
            ParamModel::Address => "address"@,
            ParamModel::Bool => "bool"@,
            ParamModel::Bytes => "bytes"@,
            ParamModel::Str => "string"@,
            ParamModel::FixedBytes(n) => "bytes"@ + decimal(n),
            ParamModel::Uint(n) => "uint"@ + decimal(n),
            ParamModel::Int(n) => "int"@ + decimal(n),
            ParamModel::Array(elem) => elem.signature() + "[]"@,
            ParamModel::FixedArray(elem, n) => elem.signature() + "["@ + decimal(n) + "]"@,
            ParamModel::Tuple(fields) => "("@ + signature_list(fields) + ")"@,
        }
    }
}

/// The signatures of a sequence of types, separated by single commas.
pub open spec fn signature_list(fields: Seq<ParamModel>) -> Seq<char>
    decreases fields,
{
    if fields.len() == 0 {
        Seq::empty()
    } else if fields.len() == 1 {
        fields.last().signature()
    } else {
        signature_list(fields.drop_last()) + ","@ + fields.last().signature()
    }
}

impl ParamType {
    /// The display form of the type, which is its canonical signature.
    #[allow(clippy::inherent_to_string)]
    pub fn to_string(&self) -> (r: String)
        ensures
            r@ == self@.signature(),
    {
        Writer::write(self)
    }
}

/// Output formatter for param type.
pub struct Writer;

impl Writer {
    /// Returns string which is a formatted representation of param: its canonical signature.
    pub fn write(param: &ParamType) -> (r: String)
        ensures
            r@ == param@.signature(),
        decreases param,
    {
        match param {
            ParamType::Address => String::from_str("address"),
            ParamType::Bytes => String::from_str("bytes"),
            ParamType::FixedBytes(len) => {
                let mut r = String::from_str("bytes");
                let digits = write_decimal(*len);
                r.append(digits.as_str());
                r
            },
            ParamType::Int(len) => {
                let mut r = String::from_str("int");
                let digits = write_decimal(*len);
                r.append(digits.as_str());
                r
            },
            ParamType::Uint(len) => {
                let mut r = String::from_str("uint");
                let digits = write_decimal(*len);
                r.append(digits.as_str());
                r
            },
            ParamType::Bool => String::from_str("bool"),
            ParamType::String => String::from_str("string"),
            ParamType::FixedArray(elem, len) => {
                let mut r = Self::write(elem);
                r.append("[");
                let digits = write_decimal(*len);
                r.append(digits.as_str());
                r.append("]");
                r
            },
            ParamType::Array(elem) => {
                let mut r = Self::write(elem);
                r.append("[]");
                r
            },
            ParamType::Tuple(params) => {
                let ghost fields = view_fields(params@);
                proof {
                    lemma_view_fields(params@);
                }
                let mut r = String::from_str("(");
                let mut i: usize = 0;
                while i < params.len()
                    invariant
                        *param == ParamType::Tuple(*params),
                        fields == view_fields(params@),
                        fields.len() == params@.len(),
                        forall|j: int| 0 <= j < params@.len() ==> #[trigger] fields[j] == params@[j]@,
                        i <= params.len(),
                        r@ == "("@ + signature_list(fields.take(i as int)),
                    decreases params.len() - i,
                {
                    proof {
                        assert(decreases_to!(*params => params[i as int]));
                        assert(decreases_to!(*param => (*param)->Tuple_0));
                        assert(decreases_to!(param => params@[i as int]));
                    }
                    if i > 0 {
                        r.append(",");
                    }
                    let field = Self::write(&params[i]);
                    r.append(field.as_str());
                    proof {
                        let next = fields.take(i + 1);
                        assert(next.last() == fields[i as int]);
                        assert(next.drop_last() =~= fields.take(i as int));
                        assert(r@ =~= "("@ + signature_list(next));
                    }
                    i += 1;
                }
                r.append(")");
                assert(fields.take(params.len() as int) =~= fields);
                r
            },
        }
    }
}

} // verus!
