//! Laws that relate the classifications, the signature and equality.
//!
//! The central one: two param types have the same canonical signature
//! exactly when they are structurally equal. The proof reads a signature
//! back. A type is an element core (a non-array type) followed by its array
//! dimensions, innermost first; after a complete type comes the end of the
//! text, a comma or a closing parenthesis.
use vstd::prelude::*;

use crate::decimal::{decimal, is_digit, lemma_decimal_digits, lemma_decimal_prefix, stops_number};
use vstd::std_specs::cmp::PartialEqSpec;

use crate::param_type::{ParamModel, ParamType};
use crate::writer::signature_list;

verus! {

/// Whether the type is an array, of fixed or of variable size.
pub open spec fn is_array(t: ParamModel) -> bool {
    t is Array || t is FixedArray
}

/// The type that remains once every array layer is taken off.
pub open spec fn element_core(t: ParamModel) -> ParamModel
    decreases t,
{
    match t {
        ParamModel::Array(elem) => element_core(*elem),
        ParamModel::FixedArray(elem, _) => element_core(*elem),
        _ => t,
    }
}

/// The array layers of the type, innermost first: `None` for a dynamic
/// array, `Some(n)` for an array of `n` elements.
pub open spec fn dimensions(t: ParamModel) -> Seq<Option<nat>>
    decreases t,
{
    match t {
        ParamModel::Array(elem) => dimensions(*elem).push(None),
        ParamModel::FixedArray(elem, n) => dimensions(*elem).push(Some(n)),
        _ => Seq::empty(),
    }
}

/// The text of one array layer.
pub open spec fn dimension_text(d: Option<nat>) -> Seq<char> {
    match d {
        None => "[]"@,
        Some(n) => "["@ + decimal(n) + "]"@,
    }
}

/// The text of a sequence of array layers.
pub open spec fn dimensions_text(ds: Seq<Option<nat>>) -> Seq<char>
    decreases ds.len(),
{
    if ds.len() == 0 {
        Seq::empty()
    } else {
        dimension_text(ds[0]) + dimensions_text(ds.drop_first())
    }
}

/// What may follow a complete type inside a signature.
pub open spec fn ends_type(s: Seq<char>) -> bool {
    s.len() == 0 || s[0] == ',' || s[0] == ')'
}

/// What may follow an element core: the end of a type or an array layer.
pub open spec fn ends_core(s: Seq<char>) -> bool {
    ends_type(s) || s[0] == '['
}

proof fn lemma_cancel_prefix(p: Seq<char>, s1: Seq<char>, s2: Seq<char>)
    requires
        p + s1 == p + s2,
    ensures
        s1 == s2,
{
    assert(s1 =~= (p + s1).subrange(p.len() as int, (p + s1).len() as int));
    assert(s2 =~= (p + s2).subrange(p.len() as int, (p + s2).len() as int));
}

proof fn lemma_dimensions_text_push(ds: Seq<Option<nat>>, d: Option<nat>)
    ensures
        dimensions_text(ds.push(d)) == dimensions_text(ds) + dimension_text(d),
    decreases ds.len(),
{
    if ds.len() == 0 {
        assert(ds.push(d).drop_first() =~= Seq::<Option<nat>>::empty());
        assert(dimensions_text(Seq::<Option<nat>>::empty()) =~= Seq::<char>::empty());
        assert(ds.push(d)[0] == d);
        assert(dimensions_text(ds.push(d)) =~= dimension_text(d));
    } else {
        lemma_dimensions_text_push(ds.drop_first(), d);
        assert(ds.push(d).drop_first() =~= ds.drop_first().push(d));
        assert(ds.push(d)[0] == ds[0]);
        assert(dimensions_text(ds.push(d)) =~= dimensions_text(ds) + dimension_text(d));
    }
}

/// A signature is the signature of the element core followed by the text
/// of the array layers.
proof fn lemma_split(t: ParamModel)
    ensures
        t.signature() == element_core(t).signature() + dimensions_text(dimensions(t)),
        !is_array(element_core(t)),
        element_core(t) == t || decreases_to!(t => element_core(t)),
    decreases t,
{
    match t {
        ParamModel::Array(elem) => {
            lemma_split(*elem);
            lemma_dimensions_text_push(dimensions(*elem), None);
            assert(t.signature() =~= element_core(t).signature() + dimensions_text(dimensions(t)));
        },
        ParamModel::FixedArray(elem, n) => {
            lemma_split(*elem);
            lemma_dimensions_text_push(dimensions(*elem), Some(n));
            assert(t.signature() =~= element_core(t).signature() + dimensions_text(dimensions(t)));
        },
        _ => {
            assert(dimensions_text(dimensions(t)) =~= Seq::<char>::empty());
            assert(t.signature() =~= element_core(t).signature() + dimensions_text(dimensions(t)));
        },
    }
}

/// A type is fixed by its element core and its array layers.
proof fn lemma_rebuild(a: ParamModel, b: ParamModel)
    requires
        element_core(a) == element_core(b),
        dimensions(a) == dimensions(b),
    ensures
        a == b,
    decreases a,
{
    match (a, b) {
        (ParamModel::Array(x), ParamModel::Array(y)) => {
            assert(dimensions(*x) =~= dimensions(a).drop_last());
            assert(dimensions(*y) =~= dimensions(b).drop_last());
            lemma_rebuild(*x, *y);
        },
        (ParamModel::FixedArray(x, m), ParamModel::FixedArray(y, n)) => {
            assert(dimensions(a).last() == Some(m));
            assert(dimensions(b).last() == Some(n));
            assert(dimensions(*x) =~= dimensions(a).drop_last());
            assert(dimensions(*y) =~= dimensions(b).drop_last());
            lemma_rebuild(*x, *y);
        },
        (ParamModel::Array(x), ParamModel::FixedArray(y, n)) => {
            assert(dimensions(a).last() == None::<nat>);
            assert(dimensions(b).last() == Some(n));
        },
        (ParamModel::FixedArray(x, m), ParamModel::Array(y)) => {
            assert(dimensions(a).last() == Some(m));
            assert(dimensions(b).last() == None::<nat>);
        },
        (ParamModel::Array(_), _) | (ParamModel::FixedArray(_, _), _) => {
            assert(dimensions(a).len() > 0);
        },
        (_, ParamModel::Array(_)) | (_, ParamModel::FixedArray(_, _)) => {
            assert(dimensions(b).len() > 0);
        },
        _ => {},
    }
}

/// The text of array layers, followed by the end of a type, is read back in
/// one way only.
proof fn lemma_dimensions_injective(
    d1: Seq<Option<nat>>,
    d2: Seq<Option<nat>>,
    r1: Seq<char>,
    r2: Seq<char>,
)
    requires
        dimensions_text(d1) + r1 == dimensions_text(d2) + r2,
        ends_type(r1),
        ends_type(r2),
    ensures
        d1 == d2,
        r1 == r2,
    decreases d1.len(),
{
    reveal_strlit("[]");
    reveal_strlit("[");
    reveal_strlit("]");
    let s = dimensions_text(d1) + r1;
    if d1.len() == 0 && d2.len() == 0 {
        assert(r1 =~= s);
        assert(r2 =~= s);
    } else if d1.len() == 0 || d2.len() == 0 {
        // The side without layers goes on with the end of a type, the other
        // with a bracket.
        let d = if d1.len() == 0 { d2 } else { d1 };
        let r = if d1.len() == 0 { r1 } else { r2 };
        assert(dimension_text(d[0])[0] == '[');
        assert(dimensions_text(d)[0] == '[');
        assert(s[0] == '[');
        assert(r =~= s);
    } else {
        let rest1 = dimensions_text(d1.drop_first()) + r1;
        let rest2 = dimensions_text(d2.drop_first()) + r2;
        assert(s =~= dimension_text(d1[0]) + rest1);
        assert(s =~= dimension_text(d2[0]) + rest2);
        match (d1[0], d2[0]) {
            (None, None) => {
                lemma_cancel_prefix("[]"@, rest1, rest2);
            },
            (Some(m), Some(n)) => {
                lemma_decimal_digits(m);
                lemma_decimal_digits(n);
                assert(s =~= "["@ + (decimal(m) + ("]"@ + rest1)));
                assert(s =~= "["@ + (decimal(n) + ("]"@ + rest2)));
                lemma_cancel_prefix("["@, decimal(m) + ("]"@ + rest1), decimal(n) + ("]"@ + rest2));
                assert(("]"@ + rest1)[0] == ']');
                assert(("]"@ + rest2)[0] == ']');
                lemma_decimal_prefix(m, n, "]"@ + rest1, "]"@ + rest2);
                lemma_cancel_prefix("]"@, rest1, rest2);
            },
            (None, Some(n)) => {
                lemma_decimal_digits(n);
                assert(s[1] == ']');
                assert(s[1] == decimal(n)[0]);
            },
            (Some(m), None) => {
                lemma_decimal_digits(m);
                assert(s[1] == ']');
                assert(s[1] == decimal(m)[0]);
            },
        }
        lemma_dimensions_injective(d1.drop_first(), d2.drop_first(), r1, r2);
        assert(d1 =~= seq![d1[0]] + d1.drop_first());
        assert(d2 =~= seq![d2[0]] + d2.drop_first());
    }
}

/// A signature is never empty and starts with a letter or an opening
/// parenthesis.
proof fn lemma_signature_start(t: ParamModel)
    ensures
        t.signature().len() >= 1,
        t.signature()[0] != ')',
        t.signature()[0] != ',',
        t.signature()[0] != '[',
    decreases t,
{
    reveal_strlit("address");
    reveal_strlit("bool");
    reveal_strlit("bytes");
    reveal_strlit("string");
    reveal_strlit("uint");
    reveal_strlit("int");
    reveal_strlit("(");
    match t {
        ParamModel::Array(elem) => {
            lemma_signature_start(*elem);
        },
        ParamModel::FixedArray(elem, _) => {
            lemma_signature_start(*elem);
        },
        _ => {},
    }
}

/// The signature list read from its front: the first signature, then, if
/// more follow, a comma and the rest.
proof fn lemma_signature_list_front(fields: Seq<ParamModel>)
    requires
        fields.len() >= 1,
    ensures
        signature_list(fields) == fields[0].signature() + (if fields.len() == 1 {
            Seq::<char>::empty()
        } else {
            ","@ + signature_list(fields.drop_first())
        }),
    decreases fields.len(),
{
    if fields.len() == 1 {
        assert(signature_list(fields) =~= fields[0].signature() + Seq::<char>::empty());
    } else if fields.len() == 2 {
        let tail = fields.drop_first();
        assert(fields.drop_last().last() == fields[0]);
        assert(tail.last() == fields.last());
        assert(signature_list(fields.drop_last()) == fields[0].signature());
        assert(signature_list(tail) == fields.last().signature());
        assert(signature_list(fields) =~= fields[0].signature() + (","@ + signature_list(tail)));
    } else {
        let init = fields.drop_last();
        let tail = fields.drop_first();
        lemma_signature_list_front(init);
        assert(init[0] == fields[0]);
        assert(init.drop_first() =~= tail.drop_last());
        assert(tail.last() == fields.last());
        assert(signature_list(fields) =~= fields[0].signature() + (","@ + signature_list(tail)));
    }
}

/// A signature followed by the end of a type is read back in one way only.
proof fn lemma_type_injective(a: ParamModel, b: ParamModel, r1: Seq<char>, r2: Seq<char>)
    requires
        a.signature() + r1 == b.signature() + r2,
        ends_type(r1),
        ends_type(r2),
    ensures
        a == b,
        r1 == r2,
    decreases a, 2int,
{
    reveal_strlit("[]");
    reveal_strlit("[");
    lemma_split(a);
    lemma_split(b);
    let (ca, cb) = (element_core(a), element_core(b));
    let (ta, tb) = (dimensions_text(dimensions(a)) + r1, dimensions_text(dimensions(b)) + r2);
    assert(a.signature() + r1 =~= ca.signature() + ta);
    assert(b.signature() + r2 =~= cb.signature() + tb);
    if dimensions(a).len() > 0 {
        assert(dimension_text(dimensions(a)[0])[0] == '[');
        assert(ta[0] == '[');
    } else {
        assert(ta =~= r1);
    }
    if dimensions(b).len() > 0 {
        assert(dimension_text(dimensions(b)[0])[0] == '[');
        assert(tb[0] == '[');
    } else {
        assert(tb =~= r2);
    }
    lemma_core_injective(ca, cb, ta, tb);
    lemma_dimensions_injective(dimensions(a), dimensions(b), r1, r2);
    lemma_rebuild(a, b);
}

/// The signature of an element core, followed by an array layer or the end
/// of a type, is read back in one way only.
proof fn lemma_core_injective(x: ParamModel, y: ParamModel, r1: Seq<char>, r2: Seq<char>)
    requires
        !is_array(x),
        !is_array(y),
        x.signature() + r1 == y.signature() + r2,
        ends_core(r1),
        ends_core(r2),
    ensures
        x == y,
        r1 == r2,
    decreases x, 1int,
{
    reveal_strlit("address");
    reveal_strlit("bool");
    reveal_strlit("bytes");
    reveal_strlit("string");
    reveal_strlit("uint");
    reveal_strlit("int");
    reveal_strlit("(");
    reveal_strlit(")");
    let s = x.signature() + r1;
    assert(s == y.signature() + r2);
    assert(stops_number(r1));
    assert(stops_number(r2));
    match (x, y) {
        (ParamModel::Address, ParamModel::Address) => {
            lemma_cancel_prefix("address"@, r1, r2);
        },
        (ParamModel::Bool, ParamModel::Bool) => {
            lemma_cancel_prefix("bool"@, r1, r2);
        },
        (ParamModel::Bytes, ParamModel::Bytes) => {
            lemma_cancel_prefix("bytes"@, r1, r2);
        },
        (ParamModel::Str, ParamModel::Str) => {
            lemma_cancel_prefix("string"@, r1, r2);
        },
        (ParamModel::FixedBytes(m), ParamModel::FixedBytes(n)) => {
            assert(s =~= "bytes"@ + (decimal(m) + r1));
            assert(s =~= "bytes"@ + (decimal(n) + r2));
            lemma_cancel_prefix("bytes"@, decimal(m) + r1, decimal(n) + r2);
            lemma_decimal_prefix(m, n, r1, r2);
        },
        (ParamModel::Uint(m), ParamModel::Uint(n)) => {
            assert(s =~= "uint"@ + (decimal(m) + r1));
            assert(s =~= "uint"@ + (decimal(n) + r2));
            lemma_cancel_prefix("uint"@, decimal(m) + r1, decimal(n) + r2);
            lemma_decimal_prefix(m, n, r1, r2);
        },
        (ParamModel::Int(m), ParamModel::Int(n)) => {
            assert(s =~= "int"@ + (decimal(m) + r1));
            assert(s =~= "int"@ + (decimal(n) + r2));
            lemma_cancel_prefix("int"@, decimal(m) + r1, decimal(n) + r2);
            lemma_decimal_prefix(m, n, r1, r2);
        },
        (ParamModel::Tuple(fa), ParamModel::Tuple(fb)) => {
            assert(s =~= "("@ + (signature_list(fa) + ")"@ + r1));
            assert(s =~= "("@ + (signature_list(fb) + ")"@ + r2));
            lemma_cancel_prefix("("@, signature_list(fa) + ")"@ + r1, signature_list(fb) + ")"@ + r2);
            lemma_list_injective(fa, fb, r1, r2);
        },
        (ParamModel::Bytes, ParamModel::FixedBytes(n)) => {
            lemma_decimal_digits(n);
            assert(y.signature()[5] == decimal(n)[0]);
            assert(s.len() == 5 + r1.len());
            assert(s[5] == r1[0]);
            assert(s[5] == y.signature()[5]);
        },
        (ParamModel::FixedBytes(m), ParamModel::Bytes) => {
            lemma_decimal_digits(m);
            assert(x.signature()[5] == decimal(m)[0]);
            assert(s.len() == x.signature().len() + r1.len());
            assert(s == "bytes"@ + r2);
            assert(s[5] == r2[0]);
            assert(s[5] == x.signature()[5]);
        },
        _ => {
            lemma_core_start(x);
            lemma_core_start(y);
            assert(s[0] == x.signature()[0]);
            assert(s[0] == y.signature()[0]);
            assert(s[1] == x.signature()[1]);
            assert(s[1] == y.signature()[1]);
        },
    }
}

/// The first two characters of the signature of an element core tell its
/// variant, but for the two kinds of bytes.
proof fn lemma_core_start(x: ParamModel)
    requires
        !is_array(x),
    ensures
        x.signature().len() >= 2,
        x is Address ==> x.signature()[0] == 'a',
        x is Bool ==> x.signature()[0] == 'b' && x.signature()[1] == 'o',
        x is Bytes ==> x.signature()[0] == 'b' && x.signature()[1] == 'y',
        x is FixedBytes ==> x.signature()[0] == 'b' && x.signature()[1] == 'y',
        x is Str ==> x.signature()[0] == 's',
        x is Uint ==> x.signature()[0] == 'u',
        x is Int ==> x.signature()[0] == 'i',
        x is Tuple ==> x.signature()[0] == '(',
{
    reveal_strlit("address");
    reveal_strlit("bool");
    reveal_strlit("bytes");
    reveal_strlit("string");
    reveal_strlit("uint");
    reveal_strlit("int");
    reveal_strlit("(");
    reveal_strlit(")");
    match x {
        ParamModel::FixedBytes(n) => lemma_decimal_digits(n),
        ParamModel::Uint(n) => lemma_decimal_digits(n),
        ParamModel::Int(n) => lemma_decimal_digits(n),
        _ => {},
    }
}

/// A signature list closed by a parenthesis is read back in one way only.
proof fn lemma_list_injective(fa: Seq<ParamModel>, fb: Seq<ParamModel>, r1: Seq<char>, r2: Seq<char>)
    requires
        signature_list(fa) + ")"@ + r1 == signature_list(fb) + ")"@ + r2,
    ensures
        fa == fb,
        r1 == r2,
    decreases fa, 0int,
{
    reveal_strlit(")");
    reveal_strlit(",");
    let s = signature_list(fa) + ")"@ + r1;
    if fa.len() == 0 && fb.len() == 0 {
        assert(s =~= ")"@ + r1);
        assert(s =~= ")"@ + r2);
        lemma_cancel_prefix(")"@, r1, r2);
    } else if fa.len() == 0 || fb.len() == 0 {
        let f = if fa.len() == 0 { fb } else { fa };
        lemma_signature_list_front(f);
        lemma_signature_start(f[0]);
        assert(signature_list(f)[0] == f[0].signature()[0]);
        assert(s[0] == ')');
        assert(s[0] == signature_list(f)[0]);
    } else {
        lemma_signature_list_front(fa);
        lemma_signature_list_front(fb);
        let rest1 = (if fa.len() == 1 { Seq::<char>::empty() } else { ","@ + signature_list(fa.drop_first()) }) + ")"@ + r1;
        let rest2 = (if fb.len() == 1 { Seq::<char>::empty() } else { ","@ + signature_list(fb.drop_first()) }) + ")"@ + r2;
        assert(s =~= fa[0].signature() + rest1);
        assert(s =~= fb[0].signature() + rest2);
        assert(rest1[0] == if fa.len() == 1 { ')' } else { ',' });
        assert(rest2[0] == if fb.len() == 1 { ')' } else { ',' });
        lemma_type_injective(fa[0], fb[0], rest1, rest2);
        if fa.len() == 1 && fb.len() == 1 {
            assert(rest1 =~= ")"@ + r1);
            assert(rest2 =~= ")"@ + r2);
            lemma_cancel_prefix(")"@, r1, r2);
        } else if fa.len() > 1 && fb.len() > 1 {
            assert(rest1 =~= ","@ + (signature_list(fa.drop_first()) + ")"@ + r1));
            assert(rest2 =~= ","@ + (signature_list(fb.drop_first()) + ")"@ + r2));
            lemma_cancel_prefix(","@, signature_list(fa.drop_first()) + ")"@ + r1, signature_list(fb.drop_first()) + ")"@ + r2);
            lemma_list_injective(fa.drop_first(), fb.drop_first(), r1, r2);
        }
        assert(fa =~= seq![fa[0]] + fa.drop_first());
        assert(fb =~= seq![fb[0]] + fb.drop_first());
    }
}

/// Equality of param types, as `==` decides it, is reflexive, symmetric and
/// transitive.
pub proof fn lemma_equality_is_equivalence(a: ParamType, b: ParamType, c: ParamType)
    ensures
        a.eq_spec(&a),
        a.eq_spec(&b) ==> b.eq_spec(&a),
        a.eq_spec(&b) && b.eq_spec(&c) ==> a.eq_spec(&c),
{
}

/// The signature and both classifications depend on the structure of a type
/// alone: equal types give equal results, however often and wherever they
/// are computed.
pub proof fn lemma_results_follow_structure(a: ParamType, b: ParamType)
    requires
        a.eq_spec(&b),
    ensures
        a@.signature() == b@.signature(),
        a@.is_dynamic() == b@.is_dynamic(),
        a@.is_empty_bytes_valid_encoding() == b@.is_empty_bytes_valid_encoding(),
{
}

/// Two param types have the same canonical signature exactly when they are
/// structurally equal.
pub proof fn lemma_signature_injective(a: ParamType, b: ParamType)
    ensures
        a@.signature() == b@.signature() <==> a.eq_spec(&b),
{
    if a@.signature() == b@.signature() {
        assert(a@.signature() + Seq::<char>::empty() =~= b@.signature() + Seq::<char>::empty());
        lemma_type_injective(a@, b@, Seq::empty(), Seq::empty());
    }
}

} // verus!
