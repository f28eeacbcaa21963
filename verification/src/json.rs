//! The value and column-type model that records carry.
//!
//! A `JsonVal` is a JSON-shaped runtime value: scalars, arrays and
//! string-keyed objects. Non-integer numbers are carried in their textual
//! form, so the core never computes on them. `ColType` is the column type
//! inferred from such values. The ghost mirrors `GVal`, `GTy` and `GField`
//! are the mathematical model that every contract speaks of.

use vstd::prelude::*;

verus! {

broadcast use vstd::std_specs::vec::group_vec_axioms, vstd::seq::group_seq_axioms;

/// Ghost model of a `JsonVal`.
#[verifier::ext_equal]
pub enum GVal {
    Null,
    Bool(bool),
    Int(int),
    Real(Seq<char>),
    Text(Seq<char>),
    Arr(Seq<GVal>),
    Obj(Seq<(Seq<char>, GVal)>),
}

/// Ghost model of a column type.
#[verifier::ext_equal]
pub enum GTy {
    Bool,
    Int,
    Real,
    Text,
    List(Box<GTy>),
    Struct(Seq<GField>),
}

/// Ghost model of a named schema field.
#[verifier::ext_equal]
pub struct GField {
    pub name: Seq<char>,
    pub ty: GTy,
}

/// A JSON-shaped runtime value. `Real` holds the textual form of a
/// non-integer number, so the verified core never touches floating point.
#[derive(Debug, PartialEq, Eq)]
pub enum JsonVal {
    Null,
    Bool(bool),
    Int(i64),
    Real(String),
    Text(String),
    Arr(Vec<JsonVal>),
    Obj(Vec<(String, JsonVal)>),
}

/// The ghost value a `JsonVal` stands for.
pub open spec fn gval_of(v: JsonVal) -> GVal
    decreases v,
{
    match v {
        JsonVal::Null => GVal::Null,
        JsonVal::Bool(b) => GVal::Bool(b),
        JsonVal::Int(i) => GVal::Int(i as int),
        JsonVal::Real(s) => GVal::Real(s@),
        JsonVal::Text(s) => GVal::Text(s@),
        JsonVal::Arr(items) => {
            proof {
                assert(decreases_to!(v => items));
            }
            GVal::Arr(gvals_of(items@))
        },
        JsonVal::Obj(fields) => {
            proof {
                assert(decreases_to!(v => fields));
            }
            GVal::Obj(gpairs_of(fields@))
        },
    }
}

/// The ghost values of a sequence of `JsonVal`s, in order.
pub open spec fn gvals_of(items: Seq<JsonVal>) -> Seq<GVal>
    decreases items,
{
    if items.len() == 0 {
        Seq::empty()
    } else {
        seq![gval_of(items[0])] + gvals_of(items.subrange(1, items.len() as int))
    }
}

/// The ghost key/value pairs of a sequence of named `JsonVal`s, in order.
pub open spec fn gpairs_of(fields: Seq<(String, JsonVal)>) -> Seq<(Seq<char>, GVal)>
    decreases fields,
{
    if fields.len() == 0 {
        Seq::empty()
    } else {
        proof {
            assert(decreases_to!(fields => fields[0]));
        }
        seq![(fields[0].0@, gval_of(fields[0].1))]
            + gpairs_of(fields.subrange(1, fields.len() as int))
    }
}

impl View for JsonVal {
    type V = GVal;

    open spec fn view(&self) -> GVal {
        gval_of(*self)
    }
}

/// A column type: the shape every cell of the column conforms to.
#[derive(Debug, PartialEq, Eq)]
pub enum ColType {
    Bool,
    Int,
    Real,
    Text,
    List(Box<ColType>),
    Struct(Vec<Field>),
}

/// A named schema field.
#[derive(Debug, PartialEq, Eq)]
pub struct Field {
    pub name: String,
    pub ty: ColType,
}

/// The ghost type a `ColType` stands for.
pub open spec fn gty_of(t: ColType) -> GTy
    decreases t,
{
    match t {
        ColType::Bool => GTy::Bool,
        ColType::Int => GTy::Int,
        ColType::Real => GTy::Real,
        ColType::Text => GTy::Text,
        ColType::List(e) => GTy::List(Box::new(gty_of(*e))),
        ColType::Struct(fs) => {
            proof {
                assert(decreases_to!(t => fs));
            }
            GTy::Struct(gfields_of(fs@))
        },
    }
}

/// The ghost fields of a sequence of `Field`s, in order.
pub open spec fn gfields_of(fs: Seq<Field>) -> Seq<GField>
    decreases fs,
{
    if fs.len() == 0 {
        Seq::empty()
    } else {
        proof {
            assert(decreases_to!(fs => fs[0]));
        }
        seq![GField { name: fs[0].name@, ty: gty_of(fs[0].ty) }]
            + gfields_of(fs.subrange(1, fs.len() as int))
    }
}

impl View for ColType {
    type V = GTy;

    open spec fn view(&self) -> GTy {
        gty_of(*self)
    }
}

/// `gvals_of` maps the sequence element by element.
pub proof fn lemma_gvals_of(items: Seq<JsonVal>)
    ensures
        gvals_of(items).len() == items.len(),
        forall|i: int| 0 <= i < items.len() ==> gvals_of(items)[i] == gval_of(items[i]),
    decreases items,
{
    if items.len() > 0 {
        lemma_gvals_of(items.subrange(1, items.len() as int));
    }
}

/// `gpairs_of` maps the sequence element by element.
pub proof fn lemma_gpairs_of(fields: Seq<(String, JsonVal)>)
    ensures
        gpairs_of(fields).len() == fields.len(),
        forall|i: int| 0 <= i < fields.len()
            ==> gpairs_of(fields)[i] == (fields[i].0@, gval_of(fields[i].1)),
    decreases fields,
{
    if fields.len() > 0 {
        lemma_gpairs_of(fields.subrange(1, fields.len() as int));
    }
}

/// `gfields_of` maps the sequence element by element.
pub proof fn lemma_gfields_of(fs: Seq<Field>)
    ensures
        gfields_of(fs).len() == fs.len(),
        forall|i: int| 0 <= i < fs.len()
            ==> gfields_of(fs)[i] == (GField { name: fs[i].name@, ty: gty_of(fs[i].ty) }),
    decreases fs,
{
    if fs.len() > 0 {
        lemma_gfields_of(fs.subrange(1, fs.len() as int));
    }
}

/// Structural size of a value: the measure that recursion over values
/// decreases.
pub open spec fn vsize(v: JsonVal) -> nat
    decreases v,
{
    match v {
        JsonVal::Arr(items) => {
            proof {
                assert(decreases_to!(v => items));
            }
            1 + vsizes(items@)
        },
        JsonVal::Obj(fields) => {
            proof {
                assert(decreases_to!(v => fields));
            }
            1 + vpairs_size(fields@)
        },
        _ => 1nat,
    }
}

/// Total structural size of a sequence of values.
pub open spec fn vsizes(items: Seq<JsonVal>) -> nat
    decreases items,
{
    if items.len() == 0 {
        0nat
    } else {
        vsize(items[0]) + vsizes(items.subrange(1, items.len() as int))
    }
}

/// Total structural size of the values of a sequence of named values.
pub open spec fn vpairs_size(fields: Seq<(String, JsonVal)>) -> nat
    decreases fields,
{
    if fields.len() == 0 {
        0nat
    } else {
        proof {
            assert(decreases_to!(fields => fields[0]));
        }
        vsize(fields[0].1) + vpairs_size(fields.subrange(1, fields.len() as int))
    }
}

/// Each element's size is bounded by the sequence's total size.
pub proof fn lemma_vsizes_elem(items: Seq<JsonVal>, i: int)
    requires
        0 <= i < items.len(),
    ensures
        vsize(items[i]) <= vsizes(items),
    decreases items,
{
    if i > 0 {
        lemma_vsizes_elem(items.subrange(1, items.len() as int), i - 1);
    }
}

/// Each element's value size is bounded by the sequence's total size.
pub proof fn lemma_vpairs_size_elem(fields: Seq<(String, JsonVal)>, i: int)
    requires
        0 <= i < fields.len(),
    ensures
        vsize(fields[i].1) <= vpairs_size(fields),
    decreases fields,
{
    if i > 0 {
        lemma_vpairs_size_elem(fields.subrange(1, fields.len() as int), i - 1);
    }
}

/// Structural size of a column type.
pub open spec fn tsize(t: ColType) -> nat
    decreases t,
{
    match t {
        ColType::List(e) => 1 + tsize(*e),
        ColType::Struct(fs) => {
            proof {
                assert(decreases_to!(t => fs));
            }
            1 + tsizes(fs@)
        },
        _ => 1nat,
    }
}

/// Total structural size of the types of a sequence of fields.
pub open spec fn tsizes(fs: Seq<Field>) -> nat
    decreases fs,
{
    if fs.len() == 0 {
        0nat
    } else {
        proof {
            assert(decreases_to!(fs => fs[0]));
        }
        tsize(fs[0].ty) + tsizes(fs.subrange(1, fs.len() as int))
    }
}

/// Each field's type size is bounded by the sequence's total size.
pub proof fn lemma_tsizes_elem(fs: Seq<Field>, i: int)
    requires
        0 <= i < fs.len(),
    ensures
        tsize(fs[i].ty) <= tsizes(fs),
    decreases fs,
{
    if i > 0 {
        lemma_tsizes_elem(fs.subrange(1, fs.len() as int), i - 1);
    }
}

impl Clone for JsonVal {
    /// A deep copy that stands for the same ghost value.
    fn clone(&self) -> (r: Self)
        ensures
            r@ == self@,
        decreases vsize(*self),
    {
        match self {
            JsonVal::Null => JsonVal::Null,
            JsonVal::Bool(b) => JsonVal::Bool(*b),
            JsonVal::Int(i) => JsonVal::Int(*i),
            JsonVal::Real(s) => JsonVal::Real(s.clone()),
            JsonVal::Text(s) => JsonVal::Text(s.clone()),
            JsonVal::Arr(items) => {
                let mut out: Vec<JsonVal> = Vec::new();
                let mut j: usize = 0;
                while j < items.len()
                    invariant
                        *self == JsonVal::Arr(*items),
                        j <= items.len(),
                        out@.len() == j,
                        forall|k: int| 0 <= k < j ==> out@[k]@ == gval_of(items@[k]),
                    decreases items.len() - j,
                {
                    let e = &items[j];
                    proof {
                        lemma_vsizes_elem(items@, j as int);
                    }
                    out.push(e.clone());
                    j = j + 1;
                }
                proof {
                    lemma_gvals_of(items@);
                    lemma_gvals_of(out@);
                    assert(gvals_of(out@) =~= gvals_of(items@));
                }
                JsonVal::Arr(out)
            },
            JsonVal::Obj(fields) => {
                let mut out: Vec<(String, JsonVal)> = Vec::new();
                let mut j: usize = 0;
                while j < fields.len()
                    invariant
                        *self == JsonVal::Obj(*fields),
                        j <= fields.len(),
                        out@.len() == j,
                        forall|k: int| 0 <= k < j
                            ==> out@[k].0@ == fields@[k].0@
                                && out@[k].1@ == gval_of(fields@[k].1),
                    decreases fields.len() - j,
                {
                    let e = &fields[j];
                    proof {
                        lemma_vpairs_size_elem(fields@, j as int);
                    }
                    out.push((e.0.clone(), e.1.clone()));
                    j = j + 1;
                }
                proof {
                    lemma_gpairs_of(fields@);
                    lemma_gpairs_of(out@);
                    assert(gpairs_of(out@) =~= gpairs_of(fields@));
                }
                JsonVal::Obj(out)
            },
        }
    }
}

impl Clone for ColType {
    /// A deep copy that stands for the same ghost type.
    fn clone(&self) -> (r: Self)
        ensures
            r@ == self@,
        decreases tsize(*self),
    {
        match self {
            ColType::Bool => ColType::Bool,
            ColType::Int => ColType::Int,
            ColType::Real => ColType::Real,
            ColType::Text => ColType::Text,
            ColType::List(e) => ColType::List(Box::new((**e).clone())),
            ColType::Struct(fs) => {
                let mut out: Vec<Field> = Vec::new();
                let mut j: usize = 0;
                while j < fs.len()
                    invariant
                        *self == ColType::Struct(*fs),
                        j <= fs.len(),
                        out@.len() == j,
                        forall|k: int| 0 <= k < j
                            ==> out@[k].name@ == fs@[k].name@
                                && gty_of(out@[k].ty) == gty_of(fs@[k].ty),
                    decreases fs.len() - j,
                {
                    let e = &fs[j];
                    proof {
                        lemma_tsizes_elem(fs@, j as int);
                    }
                    out.push(Field { name: e.name.clone(), ty: e.ty.clone() });
                    j = j + 1;
                }
                proof {
                    lemma_gfields_of(fs@);
                    lemma_gfields_of(out@);
                    assert(gfields_of(out@) =~= gfields_of(fs@));
                }
                ColType::Struct(out)
            },
        }
    }
}

impl Clone for Field {
    /// A deep copy that stands for the same ghost field.
    fn clone(&self) -> (r: Self)
        ensures
            r@ == self@,
    {
        Field { name: self.name.clone(), ty: self.ty.clone() }
    }
}

impl View for Field {
    type V = GField;

    open spec fn view(&self) -> GField {
        GField { name: self.name@, ty: gty_of(self.ty) }
    }
}

} // verus!

verus! {

/// A value conforms to a type. `Null` conforms to any non-struct type
/// (a struct cell is always a full object).
pub open spec fn g_has_ty(v: GVal, t: GTy) -> bool
    decreases v,
{
    match v {
        GVal::Null => !(t matches GTy::Struct(_)),
        GVal::Bool(_) => t == GTy::Bool,
        GVal::Int(_) => t == GTy::Int,
        GVal::Real(_) => t == GTy::Real,
        GVal::Text(_) => t == GTy::Text,
        GVal::Arr(items) => match t {
            GTy::List(e) => g_all_ty(items, *e),
            _ => false,
        },
        GVal::Obj(kvs) => match t {
            GTy::Struct(fs) => g_obj_ty(kvs, fs),
            _ => false,
        },
    }
}

/// Every value of the sequence conforms to `t`.
pub open spec fn g_all_ty(items: Seq<GVal>, t: GTy) -> bool
    decreases items,
{
    if items.len() == 0 {
        true
    } else {
        g_has_ty(items[0], t) && g_all_ty(items.subrange(1, items.len() as int), t)
    }
}

/// The object's keys are the field names in order and each value conforms
/// to its field's type.
pub open spec fn g_obj_ty(kvs: Seq<(Seq<char>, GVal)>, fs: Seq<GField>) -> bool
    decreases kvs,
{
    if kvs.len() != fs.len() {
        false
    } else if kvs.len() == 0 {
        true
    } else {
        kvs[0].0 == fs[0].name && g_has_ty(kvs[0].1, fs[0].ty)
            && g_obj_ty(kvs.subrange(1, kvs.len() as int), fs.subrange(1, fs.len() as int))
    }
}

/// `g_all_ty` is the pointwise conformance of every element.
pub proof fn lemma_g_all_ty(items: Seq<GVal>, t: GTy)
    ensures
        g_all_ty(items, t) <==> (forall|i: int| 0 <= i < items.len()
            ==> g_has_ty(#[trigger] items[i], t)),
    decreases items,
{
    if items.len() > 0 {
        let items1 = items.subrange(1, items.len() as int);
        lemma_g_all_ty(items1, t);
        assert(forall|i: int| 0 <= i < items1.len() ==> #[trigger] items1[i] == items[i + 1]);
        if g_all_ty(items, t) {
            assert forall|i: int| 0 <= i < items.len()
                implies g_has_ty(#[trigger] items[i], t) by {
                if i > 0 {
                    assert(items1[i - 1] == items[i]);
                }
            }
        }
        if forall|i: int| 0 <= i < items.len() ==> g_has_ty(#[trigger] items[i], t) {
            assert forall|i: int| 0 <= i < items1.len()
                implies g_has_ty(#[trigger] items1[i], t) by {
                assert(items1[i] == items[i + 1]);
            }
        }
    }
}

/// `g_obj_ty` is the pointwise match of keys and conformance of values.
pub proof fn lemma_g_obj_ty(kvs: Seq<(Seq<char>, GVal)>, fs: Seq<GField>)
    ensures
        g_obj_ty(kvs, fs) <==> (kvs.len() == fs.len() && (forall|i: int| 0 <= i < kvs.len()
            ==> (#[trigger] kvs[i]).0 == fs[i].name && g_has_ty(kvs[i].1, fs[i].ty))),
    decreases kvs,
{
    if kvs.len() == fs.len() && kvs.len() > 0 {
        let kvs1 = kvs.subrange(1, kvs.len() as int);
        let fs1 = fs.subrange(1, fs.len() as int);
        lemma_g_obj_ty(kvs1, fs1);
        assert(forall|i: int| 0 <= i < kvs1.len() ==> #[trigger] kvs1[i] == kvs[i + 1]);
        assert(forall|i: int| 0 <= i < fs1.len() ==> #[trigger] fs1[i] == fs[i + 1]);
        if g_obj_ty(kvs, fs) {
            assert forall|i: int| 0 <= i < kvs.len()
                implies (#[trigger] kvs[i]).0 == fs[i].name && g_has_ty(kvs[i].1, fs[i].ty) by {
                if i > 0 {
                    assert(kvs1[i - 1] == kvs[i]);
                    assert(fs1[i - 1] == fs[i]);
                }
            }
        }
        if kvs.len() == fs.len() && (forall|i: int| 0 <= i < kvs.len()
            ==> (#[trigger] kvs[i]).0 == fs[i].name && g_has_ty(kvs[i].1, fs[i].ty)) {
            assert forall|i: int| 0 <= i < kvs1.len()
                implies (#[trigger] kvs1[i]).0 == fs1[i].name && g_has_ty(kvs1[i].1, fs1[i].ty) by {
                assert(kvs1[i] == kvs[i + 1]);
                assert(fs1[i] == fs[i + 1]);
            }
        }
    }
}

/// The type inferred from a value, when the value is table-shaped: a
/// null-only or empty-array witness yields nothing. Arrays take their
/// element type from their first element; the rest must conform to it.
pub open spec fn g_infer(v: GVal) -> Option<GTy>
    decreases v,
{
    match v {
        GVal::Null => None,
        GVal::Bool(_) => Some(GTy::Bool),
        GVal::Int(_) => Some(GTy::Int),
        GVal::Real(_) => Some(GTy::Real),
        GVal::Text(_) => Some(GTy::Text),
        GVal::Arr(items) => {
            if items.len() == 0 {
                None
            } else {
                match g_infer(items[0]) {
                    None => None,
                    Some(e) => if g_all_ty(items, e) {
                        Some(GTy::List(Box::new(e)))
                    } else {
                        None
                    },
                }
            }
        },
        GVal::Obj(kvs) => match g_infer_fields(kvs) {
            None => None,
            Some(fs) => Some(GTy::Struct(fs)),
        },
    }
}

/// The fields inferred from an object's key/value pairs.
pub open spec fn g_infer_fields(kvs: Seq<(Seq<char>, GVal)>) -> Option<Seq<GField>>
    decreases kvs,
{
    if kvs.len() == 0 {
        Some(Seq::empty())
    } else {
        match g_infer(kvs[0].1) {
            None => None,
            Some(t) => match g_infer_fields(kvs.subrange(1, kvs.len() as int)) {
                None => None,
                Some(rest) => Some(seq![GField { name: kvs[0].0, ty: t }] + rest),
            },
        }
    }
}

} // verus!

verus! {

/// `g_infer_fields` distributes over concatenation.
pub proof fn lemma_infer_fields_append(s1: Seq<(Seq<char>, GVal)>, s2: Seq<(Seq<char>, GVal)>)
    ensures
        g_infer_fields(s1 + s2) == (match g_infer_fields(s1) {
            None => None::<Seq<GField>>,
            Some(f1) => match g_infer_fields(s2) {
                None => None,
                Some(f2) => Some(f1 + f2),
            },
        }),
    decreases s1,
{
    if s1.len() == 0 {
        assert(s1 + s2 =~= s2);
        if g_infer_fields(s2) is Some {
            assert(Seq::<GField>::empty() + g_infer_fields(s2)->Some_0
                =~= g_infer_fields(s2)->Some_0);
        }
    } else {
        let rest = s1.subrange(1, s1.len() as int);
        lemma_infer_fields_append(rest, s2);
        assert((s1 + s2).subrange(1, (s1 + s2).len() as int) =~= rest + s2);
        assert((s1 + s2)[0] == s1[0]);
        if g_infer(s1[0].1) is Some && g_infer_fields(rest) is Some
            && g_infer_fields(s2) is Some {
            let t = g_infer(s1[0].1)->Some_0;
            let f = GField { name: s1[0].0, ty: t };
            assert(seq![f] + (g_infer_fields(rest)->Some_0 + g_infer_fields(s2)->Some_0)
                =~= (seq![f] + g_infer_fields(rest)->Some_0) + g_infer_fields(s2)->Some_0);
        }
    }
}

/// Whether two column types are equal, decided structurally.
pub fn ty_eq(a: &ColType, b: &ColType) -> (r: bool)
    ensures
        r == (a@ == b@),
    decreases tsize(*a),
{
    match (a, b) {
        (ColType::Bool, ColType::Bool) => true,
        (ColType::Int, ColType::Int) => true,
        (ColType::Real, ColType::Real) => true,
        (ColType::Text, ColType::Text) => true,
        (ColType::List(x), ColType::List(y)) => {
            let r = ty_eq(x, y);
            proof {
                if (**x)@ == (**y)@ {
                    assert(a@ =~= b@);
                }
            }
            r
        },
        (ColType::Struct(fs), ColType::Struct(gs)) => {
            proof {
                lemma_gfields_of(fs@);
                lemma_gfields_of(gs@);
            }
            if fs.len() != gs.len() {
                return false;
            }
            let mut j: usize = 0;
            while j < fs.len()
                invariant
                    *a == ColType::Struct(*fs),
                    *b == ColType::Struct(*gs),
                    j <= fs@.len(),
                    fs@.len() == gs@.len(),
                    gfields_of(fs@).len() == fs@.len(),
                    gfields_of(gs@).len() == gs@.len(),
                    forall|k: int| 0 <= k < fs@.len()
                        ==> gfields_of(fs@)[k]
                            == (GField { name: fs@[k].name@, ty: gty_of(fs@[k].ty) }),
                    forall|k: int| 0 <= k < gs@.len()
                        ==> gfields_of(gs@)[k]
                            == (GField { name: gs@[k].name@, ty: gty_of(gs@[k].ty) }),
                    forall|k: int| 0 <= k < j ==> gfields_of(fs@)[k] == gfields_of(gs@)[k],
                decreases fs@.len() - j,
            {
                proof {
                    lemma_tsizes_elem(fs@, j as int);
                }
                if !(fs[j].name == gs[j].name) {
                    proof {
                        assert(gfields_of(fs@)[j as int] != gfields_of(gs@)[j as int]);
                        assert(gfields_of(fs@) != gfields_of(gs@));
                    }
                    return false;
                }
                if !ty_eq(&fs[j].ty, &gs[j].ty) {
                    proof {
                        assert(gfields_of(fs@)[j as int] != gfields_of(gs@)[j as int]);
                        assert(gfields_of(fs@) != gfields_of(gs@));
                    }
                    return false;
                }
                j = j + 1;
            }
            proof {
                assert(gfields_of(fs@) =~= gfields_of(gs@));
                assert(a@ =~= b@);
            }
            true
        },
        _ => {
            proof {
                assert(a@ != b@);
            }
            false
        },
    }
}

/// Whether a value conforms to a column type.
pub fn has_ty(v: &JsonVal, t: &ColType) -> (r: bool)
    ensures
        r == g_has_ty(v@, t@),
    decreases vsize(*v),
{
    match v {
        JsonVal::Null => !(matches!(t, ColType::Struct(_))),
        JsonVal::Bool(_) => matches!(t, ColType::Bool),
        JsonVal::Int(_) => matches!(t, ColType::Int),
        JsonVal::Real(_) => matches!(t, ColType::Real),
        JsonVal::Text(_) => matches!(t, ColType::Text),
        JsonVal::Arr(items) => match t {
            ColType::List(e) => {
                proof {
                    lemma_gvals_of(items@);
                    lemma_g_all_ty(gvals_of(items@), (**e)@);
                }
                let mut j: usize = 0;
                while j < items.len()
                    invariant
                        *v == JsonVal::Arr(*items),
                        *t == ColType::List(*e),
                        j <= items@.len(),
                        gvals_of(items@).len() == items@.len(),
                        forall|k: int| 0 <= k < items@.len()
                            ==> gvals_of(items@)[k] == gval_of(items@[k]),
                        forall|k: int| 0 <= k < j ==> g_has_ty(gvals_of(items@)[k], (**e)@),
                    decreases items@.len() - j,
                {
                    proof {
                        lemma_vsizes_elem(items@, j as int);
                    }
                    if !has_ty(&items[j], e) {
                        proof {
                            lemma_g_all_ty(gvals_of(items@), (**e)@);
                            assert(!g_has_ty(gvals_of(items@)[j as int], (**e)@));
                            assert(!g_all_ty(gvals_of(items@), (**e)@));
                            assert(v@ == GVal::Arr(gvals_of(items@)));
                            assert(t@ == GTy::List(Box::new((**e)@)));
                        }
                        return false;
                    }
                    j = j + 1;
                }
                proof {
                    lemma_g_all_ty(gvals_of(items@), (**e)@);
                }
                true
            },
            _ => false,
        },
        JsonVal::Obj(kvs) => match t {
            ColType::Struct(fs) => {
                proof {
                    lemma_gpairs_of(kvs@);
                    lemma_gfields_of(fs@);
                    lemma_g_obj_ty(gpairs_of(kvs@), gfields_of(fs@));
                }
                if kvs.len() != fs.len() {
                    return false;
                }
                let mut j: usize = 0;
                while j < kvs.len()
                    invariant
                        *v == JsonVal::Obj(*kvs),
                        *t == ColType::Struct(*fs),
                        j <= kvs@.len(),
                        kvs@.len() == fs@.len(),
                        gpairs_of(kvs@).len() == kvs@.len(),
                        gfields_of(fs@).len() == fs@.len(),
                        forall|k: int| 0 <= k < kvs@.len()
                            ==> gpairs_of(kvs@)[k] == (kvs@[k].0@, gval_of(kvs@[k].1)),
                        forall|k: int| 0 <= k < fs@.len()
                            ==> gfields_of(fs@)[k]
                                == (GField { name: fs@[k].name@, ty: gty_of(fs@[k].ty) }),
                        forall|k: int| 0 <= k < j
                            ==> (#[trigger] gpairs_of(kvs@)[k]).0 == gfields_of(fs@)[k].name
                                && g_has_ty(gpairs_of(kvs@)[k].1, gfields_of(fs@)[k].ty),
                    decreases kvs@.len() - j,
                {
                    proof {
                        lemma_vpairs_size_elem(kvs@, j as int);
                    }
                    let keys_match = kvs[j].0 == fs[j].name;
                    if !keys_match || !has_ty(&kvs[j].1, &fs[j].ty) {
                        proof {
                            lemma_g_obj_ty(gpairs_of(kvs@), gfields_of(fs@));
                            assert(!((gpairs_of(kvs@)[j as int]).0 == gfields_of(fs@)[j as int].name
                                && g_has_ty(gpairs_of(kvs@)[j as int].1,
                                    gfields_of(fs@)[j as int].ty)));
                            assert(!g_obj_ty(gpairs_of(kvs@), gfields_of(fs@)));
                            assert(v@ == GVal::Obj(gpairs_of(kvs@)));
                            assert(t@ == GTy::Struct(gfields_of(fs@)));
                        }
                        return false;
                    }
                    j = j + 1;
                }
                proof {
                    lemma_g_obj_ty(gpairs_of(kvs@), gfields_of(fs@));
                }
                true
            },
            _ => false,
        },
    }
}

} // verus!

verus! {

/// Infer the column type of a value, if the value is table-shaped.
pub fn infer_ty(v: &JsonVal) -> (r: Option<ColType>)
    ensures
        (match r {
            Some(t) => g_infer(v@) == Some(t@),
            None => g_infer(v@) is None,
        }),
    decreases vsize(*v),
{
    match v {
        JsonVal::Null => None,
        JsonVal::Bool(_) => Some(ColType::Bool),
        JsonVal::Int(_) => Some(ColType::Int),
        JsonVal::Real(_) => Some(ColType::Real),
        JsonVal::Text(_) => Some(ColType::Text),
        JsonVal::Arr(items) => {
            proof {
                lemma_gvals_of(items@);
            }
            if items.len() == 0 {
                return None;
            }
            proof {
                lemma_vsizes_elem(items@, 0);
            }
            match infer_ty(&items[0]) {
                None => None,
                Some(et) => {
                    proof {
                        lemma_g_all_ty(gvals_of(items@), et@);
                    }
                    let mut j: usize = 0;
                    while j < items.len()
                        invariant
                            *v == JsonVal::Arr(*items),
                            0 < items@.len(),
                            j <= items@.len(),
                            gvals_of(items@).len() == items@.len(),
                            forall|k: int| 0 <= k < items@.len()
                                ==> gvals_of(items@)[k] == gval_of(items@[k]),
                            g_infer(gvals_of(items@)[0]) == Some(et@),
                            forall|k: int| 0 <= k < j ==> g_has_ty(gvals_of(items@)[k], et@),
                        decreases items@.len() - j,
                    {
                        if !has_ty(&items[j], &et) {
                            proof {
                                lemma_g_all_ty(gvals_of(items@), et@);
                                assert(gvals_of(items@)[j as int] == gval_of(items@[j as int]));
                                assert(!g_has_ty(gvals_of(items@)[j as int], et@));
                                assert(!g_all_ty(gvals_of(items@), et@));
                                assert(v@ == GVal::Arr(gvals_of(items@)));
                            }
                            return None;
                        }
                        j = j + 1;
                    }
                    proof {
                        lemma_g_all_ty(gvals_of(items@), et@);
                        assert(g_all_ty(gvals_of(items@), et@));
                        assert(v@ == GVal::Arr(gvals_of(items@)));
                    }
                    Some(ColType::List(Box::new(et)))
                },
            }
        },
        JsonVal::Obj(kvs) => {
            proof {
                lemma_gpairs_of(kvs@);
            }
            let ghost gk = gpairs_of(kvs@);
            let mut out: Vec<Field> = Vec::new();
            let mut j: usize = 0;
            while j < kvs.len()
                invariant
                    *v == JsonVal::Obj(*kvs),
                    j <= kvs@.len(),
                    gk == gpairs_of(kvs@),
                    gk.len() == kvs@.len(),
                    forall|k: int| 0 <= k < kvs@.len()
                        ==> gk[k] == (kvs@[k].0@, gval_of(kvs@[k].1)),
                    g_infer_fields(gk.subrange(0, j as int)) == Some(gfields_of(out@)),
                decreases kvs@.len() - j,
            {
                proof {
                    lemma_vpairs_size_elem(kvs@, j as int);
                }
                match infer_ty(&kvs[j].1) {
                    None => {
                        proof {
                            let pre = gk.subrange(0, j as int);
                            let rest = gk.subrange(j as int, gk.len() as int);
                            lemma_infer_fields_append(pre, rest);
                            assert(pre + rest =~= gk);
                            assert(rest[0] == gk[j as int]);
                            assert(g_infer(rest[0].1) is None);
                            assert(g_infer_fields(rest) is None);
                            assert(g_infer_fields(gk) is None);
                            assert(v@ == GVal::Obj(gk));
                        }
                        return None;
                    },
                    Some(t) => {
                        let ghost old_out = out@;
                        out.push(Field { name: kvs[j].0.clone(), ty: t });
                        proof {
                            let pre = gk.subrange(0, j as int);
                            let one = gk.subrange(j as int, j as int + 1);
                            lemma_infer_fields_append(pre, one);
                            assert(pre + one =~= gk.subrange(0, j as int + 1));
                            assert(one[0] == gk[j as int]);
                            assert(one.subrange(1, one.len() as int) =~= Seq::empty());
                            let gf = GField { name: gk[j as int].0, ty: t@ };
                            assert(gk[j as int].1 == gval_of(kvs@[j as int].1));
                            assert(g_infer(one[0].1) == Some(t@));
                            assert(g_infer_fields(one.subrange(1, one.len() as int))
                                == Some(Seq::<GField>::empty()));
                            assert(g_infer_fields(one) == Some(seq![gf] + Seq::<GField>::empty()));
                            assert(seq![gf] + Seq::<GField>::empty() =~= seq![gf]);
                            lemma_gfields_of(old_out);
                            lemma_gfields_of(out@);
                            assert(gfields_of(out@) =~= gfields_of(old_out) + seq![gf]);
                        }
                    },
                }
                j = j + 1;
            }
            proof {
                assert(gk.subrange(0, kvs@.len() as int) =~= gk);
                assert(v@ == GVal::Obj(gk));
            }
            Some(ColType::Struct(out))
        },
    }
}

} // verus!

verus! {

/// `gfields_of` distributes over concatenation.
pub proof fn lemma_gfields_of_append(a: Seq<Field>, b: Seq<Field>)
    ensures
        gfields_of(a + b) == gfields_of(a) + gfields_of(b),
    decreases a,
{
    if a.len() == 0 {
        assert(a + b =~= b);
        assert(gfields_of(a) + gfields_of(b) =~= gfields_of(b));
    } else {
        lemma_gfields_of_append(a.subrange(1, a.len() as int), b);
        assert((a + b).subrange(1, (a + b).len() as int) =~= a.subrange(1, a.len() as int) + b);
        assert((a + b)[0] == a[0]);
        assert(seq![GField { name: a[0].name@, ty: gty_of(a[0].ty) }]
            + (gfields_of(a.subrange(1, a.len() as int)) + gfields_of(b))
            =~= (seq![GField { name: a[0].name@, ty: gty_of(a[0].ty) }]
                + gfields_of(a.subrange(1, a.len() as int))) + gfields_of(b));
    }
}

/// `gvals_of` distributes over concatenation.
pub proof fn lemma_gvals_of_append(a: Seq<JsonVal>, b: Seq<JsonVal>)
    ensures
        gvals_of(a + b) == gvals_of(a) + gvals_of(b),
    decreases a,
{
    if a.len() == 0 {
        assert(a + b =~= b);
        assert(gvals_of(a) + gvals_of(b) =~= gvals_of(b));
    } else {
        lemma_gvals_of_append(a.subrange(1, a.len() as int), b);
        assert((a + b).subrange(1, (a + b).len() as int) =~= a.subrange(1, a.len() as int) + b);
        assert((a + b)[0] == a[0]);
        assert(seq![gval_of(a[0])] + (gvals_of(a.subrange(1, a.len() as int)) + gvals_of(b))
            =~= (seq![gval_of(a[0])] + gvals_of(a.subrange(1, a.len() as int))) + gvals_of(b));
    }
}

/// The ghost field of a one-field list.
pub proof fn lemma_gfields_of_one(f: Field)
    ensures
        gfields_of(seq![f]) == seq![GField { name: f.name@, ty: gty_of(f.ty) }],
{
    reveal_with_fuel(gfields_of, 2);
    assert(seq![f].subrange(1, 1) =~= Seq::<Field>::empty());
    assert(gfields_of(seq![f])
        =~= seq![GField { name: f.name@, ty: gty_of(f.ty) }] + Seq::<GField>::empty());
    assert(seq![GField { name: f.name@, ty: gty_of(f.ty) }] + Seq::<GField>::empty()
        =~= seq![GField { name: f.name@, ty: gty_of(f.ty) }]);
}

/// The ghost value of a one-value list.
pub proof fn lemma_gvals_of_one(v: JsonVal)
    ensures
        gvals_of(seq![v]) == seq![gval_of(v)],
{
    reveal_with_fuel(gvals_of, 2);
    assert(seq![v].subrange(1, 1) =~= Seq::<JsonVal>::empty());
    assert(gvals_of(seq![v]) =~= seq![gval_of(v)] + Seq::<GVal>::empty());
    assert(seq![gval_of(v)] + Seq::<GVal>::empty() =~= seq![gval_of(v)]);
}

} // verus!
