//! Flattening: replace every struct column by one column per leaf field,
//! named by the dotted path down to it. Row order and metadata are kept.

use vstd::prelude::*;
use crate::json::{ColType, Field, GField, GTy, GVal, JsonVal, gfields_of, gvals_of, gpairs_of,
    lemma_gfields_of, lemma_gvals_of, lemma_gpairs_of,
    lemma_gfields_of_append, lemma_gfields_of_one, lemma_gvals_of_append, lemma_gvals_of_one, g_has_ty, g_obj_ty, lemma_g_obj_ty,
    tsize, tsizes, lemma_tsizes_elem, gval_of, gty_of};
use crate::record::obj_vals;
use crate::text::has_char;

verus! {

broadcast use vstd::std_specs::vec::group_vec_axioms, vstd::seq::group_seq_axioms;

/// Structural size of a ghost type.
pub open spec fn gty_size(t: GTy) -> nat
    decreases t,
{
    match t {
        GTy::List(e) => 1 + gty_size(*e),
        GTy::Struct(fs) => {
            proof {
                assert(decreases_to!(t => fs));
            }
            1 + gfs_size(fs)
        },
        _ => 1nat,
    }
}

/// Total structural size of a sequence of ghost fields.
pub open spec fn gfs_size(fs: Seq<GField>) -> nat
    decreases fs,
{
    if fs.len() == 0 {
        0nat
    } else {
        proof {
            assert(decreases_to!(fs => fs[0]));
        }
        1 + gty_size(fs[0].ty) + gfs_size(fs.subrange(1, fs.len() as int))
    }
}

/// Each field's type size is bounded by the sequence's total size.
pub proof fn lemma_gfs_size_elem(fs: Seq<GField>, i: int)
    requires
        0 <= i < fs.len(),
    ensures
        gty_size(fs[i].ty) < gfs_size(fs),
    decreases fs,
{
    if i > 0 {
        lemma_gfs_size_elem(fs.subrange(1, fs.len() as int), i - 1);
    }
}

/// A name free of the path separator.
pub open spec fn dot_free(n: Seq<char>) -> bool {
    !n.contains('.')
}

/// The flattened form of one field under `prefix`: a struct field opens
/// into its leaves, any other field keeps its type under its dotted name.
pub open spec fn flat_field(prefix: Seq<char>, f: GField) -> Seq<GField>
    decreases gty_size(f.ty),
{
    match f.ty {
        GTy::Struct(subs) => flat_fields(prefix + f.name + seq!['.'], subs),
        _ => seq![GField { name: prefix + f.name, ty: f.ty }],
    }
}

/// The flattened form of a field list under `prefix`.
pub open spec fn flat_fields(prefix: Seq<char>, fs: Seq<GField>) -> Seq<GField>
    decreases gfs_size(fs),
{
    if fs.len() == 0 {
        Seq::empty()
    } else {
        proof {
            lemma_gfs_size_elem(fs, 0);
        }
        flat_field(prefix, fs[0]) + flat_fields(prefix, fs.subrange(1, fs.len() as int))
    }
}

/// The flattened form of one cell: a struct cell opens into its values,
/// any other cell stays.
pub open spec fn flat_cell(f: GField, v: GVal) -> Seq<GVal>
    decreases gty_size(f.ty),
{
    match f.ty {
        GTy::Struct(subs) => flat_row(subs, obj_vals(v)),
        _ => seq![v],
    }
}

/// The flattened form of a row that conforms to `fs`.
pub open spec fn flat_row(fs: Seq<GField>, row: Seq<GVal>) -> Seq<GVal>
    decreases gfs_size(fs),
{
    if fs.len() == 0 {
        Seq::empty()
    } else {
        proof {
            lemma_gfs_size_elem(fs, 0);
        }
        flat_cell(fs[0], row[0]) + flat_row(
            fs.subrange(1, fs.len() as int),
            row.subrange(1, row.len() as int),
        )
    }
}

/// No field name anywhere in the tree holds a dot.
pub open spec fn deep_clean(fs: Seq<GField>) -> bool
    decreases gfs_size(fs),
{
    if fs.len() == 0 {
        true
    } else {
        proof {
            lemma_gfs_size_elem(fs, 0);
        }
        dot_free(fs[0].name) && (match fs[0].ty {
            GTy::Struct(subs) => deep_clean(subs),
            _ => true,
        }) && deep_clean(fs.subrange(1, fs.len() as int))
    }
}

/// Flattening succeeds: every struct field's own name, and every name
/// inside it, is free of dots. Names of non-struct top-level fields may
/// hold dots, so flattening an already flat record succeeds unchanged.
pub open spec fn flatten_ok(fs: Seq<GField>) -> bool
    decreases fs,
{
    if fs.len() == 0 {
        true
    } else {
        (match fs[0].ty {
            GTy::Struct(subs) => dot_free(fs[0].name) && deep_clean(subs),
            _ => true,
        }) && flatten_ok(fs.subrange(1, fs.len() as int))
    }
}

/// `flat_fields` distributes over concatenation.
pub proof fn lemma_flat_fields_append(prefix: Seq<char>, a: Seq<GField>, b: Seq<GField>)
    ensures
        flat_fields(prefix, a + b) == flat_fields(prefix, a) + flat_fields(prefix, b),
    decreases a,
{
    if a.len() == 0 {
        assert(a + b =~= b);
        assert(flat_fields(prefix, a) + flat_fields(prefix, b) =~= flat_fields(prefix, b));
    } else {
        lemma_flat_fields_append(prefix, a.subrange(1, a.len() as int), b);
        assert((a + b).subrange(1, (a + b).len() as int) =~= a.subrange(1, a.len() as int) + b);
        assert((a + b)[0] == a[0]);
        assert(flat_field(prefix, a[0]) + (flat_fields(prefix, a.subrange(1, a.len() as int))
            + flat_fields(prefix, b))
            =~= (flat_field(prefix, a[0]) + flat_fields(prefix, a.subrange(1, a.len() as int)))
                + flat_fields(prefix, b));
    }
}

/// `flat_row` distributes over concatenation of conforming halves.
pub proof fn lemma_flat_row_append(a: Seq<GField>, b: Seq<GField>, ra: Seq<GVal>, rb: Seq<GVal>)
    requires
        ra.len() == a.len(),
    ensures
        flat_row(a + b, ra + rb) == flat_row(a, ra) + flat_row(b, rb),
    decreases a,
{
    if a.len() == 0 {
        assert(a + b =~= b);
        assert(ra + rb =~= rb);
        assert(flat_row(a, ra) + flat_row(b, rb) =~= flat_row(b, rb));
    } else {
        lemma_flat_row_append(
            a.subrange(1, a.len() as int),
            b,
            ra.subrange(1, ra.len() as int),
            rb,
        );
        assert((a + b).subrange(1, (a + b).len() as int) =~= a.subrange(1, a.len() as int) + b);
        assert((ra + rb).subrange(1, (ra + rb).len() as int)
            =~= ra.subrange(1, ra.len() as int) + rb);
        assert((a + b)[0] == a[0]);
        assert((ra + rb)[0] == ra[0]);
        assert(flat_cell(a[0], ra[0]) + (flat_row(a.subrange(1, a.len() as int),
            ra.subrange(1, ra.len() as int)) + flat_row(b, rb))
            =~= (flat_cell(a[0], ra[0]) + flat_row(a.subrange(1, a.len() as int),
                ra.subrange(1, ra.len() as int))) + flat_row(b, rb));
    }
}

} // verus!

verus! {

/// `deep_clean` distributes over concatenation.
pub proof fn lemma_deep_clean_append(a: Seq<GField>, b: Seq<GField>)
    ensures
        deep_clean(a + b) == (deep_clean(a) && deep_clean(b)),
    decreases a,
{
    if a.len() == 0 {
        assert(a + b =~= b);
    } else {
        lemma_deep_clean_append(a.subrange(1, a.len() as int), b);
        assert((a + b).subrange(1, (a + b).len() as int) =~= a.subrange(1, a.len() as int) + b);
        assert((a + b)[0] == a[0]);
    }
}

/// `flatten_ok` distributes over concatenation.
pub proof fn lemma_flatten_ok_append(a: Seq<GField>, b: Seq<GField>)
    ensures
        flatten_ok(a + b) == (flatten_ok(a) && flatten_ok(b)),
    decreases a,
{
    if a.len() == 0 {
        assert(a + b =~= b);
    } else {
        lemma_flatten_ok_append(a.subrange(1, a.len() as int), b);
        assert((a + b).subrange(1, (a + b).len() as int) =~= a.subrange(1, a.len() as int) + b);
        assert((a + b)[0] == a[0]);
    }
}

/// Flattening a conforming row yields a row that conforms to the
/// flattened fields.
pub proof fn lemma_flat_conforms(prefix: Seq<char>, fs: Seq<GField>, row: Seq<GVal>)
    requires
        row.len() == fs.len(),
        forall|j: int| 0 <= j < row.len() ==> g_has_ty(#[trigger] row[j], fs[j].ty),
    ensures
        flat_row(fs, row).len() == flat_fields(prefix, fs).len(),
        forall|j: int| 0 <= j < flat_row(fs, row).len()
            ==> g_has_ty(#[trigger] flat_row(fs, row)[j], flat_fields(prefix, fs)[j].ty),
    decreases gfs_size(fs),
{
    if fs.len() > 0 {
        lemma_gfs_size_elem(fs, 0);
        lemma_flat_cell_conforms(prefix, fs[0], row[0]);
        let fs1 = fs.subrange(1, fs.len() as int);
        let row1 = row.subrange(1, row.len() as int);
        assert(forall|j: int| 0 <= j < row1.len()
            ==> #[trigger] row1[j] == row[j + 1] && fs1[j] == fs[j + 1]);
        lemma_flat_conforms(prefix, fs1, row1);
        let hc = flat_cell(fs[0], row[0]);
        let hf = flat_field(prefix, fs[0]);
        assert forall|j: int| 0 <= j < flat_row(fs, row).len()
            implies g_has_ty(#[trigger] flat_row(fs, row)[j], flat_fields(prefix, fs)[j].ty) by {
            if j < hc.len() {
                assert(flat_row(fs, row)[j] == hc[j]);
                assert(flat_fields(prefix, fs)[j] == hf[j]);
            } else {
                assert(flat_row(fs, row)[j] == flat_row(fs1, row1)[j - hc.len()]);
                assert(flat_fields(prefix, fs)[j] == flat_fields(prefix, fs1)[j - hc.len()]);
            }
        }
    }
}

/// Flattening a conforming cell yields values that conform to the cell's
/// flattened fields.
pub proof fn lemma_flat_cell_conforms(prefix: Seq<char>, f: GField, v: GVal)
    requires
        g_has_ty(v, f.ty),
    ensures
        flat_cell(f, v).len() == flat_field(prefix, f).len(),
        forall|j: int| 0 <= j < flat_cell(f, v).len()
            ==> g_has_ty(#[trigger] flat_cell(f, v)[j], flat_field(prefix, f)[j].ty),
    decreases gty_size(f.ty),
{
    match f.ty {
        GTy::Struct(subs) => {
            lemma_row_from_obj_local(v, subs);
            lemma_flat_conforms(prefix + f.name + seq!['.'], subs, obj_vals(v));
        },
        _ => {},
    }
}

/// A value that conforms to a struct type yields a conforming row of
/// values.
proof fn lemma_row_from_obj_local(r: GVal, fs: Seq<GField>)
    requires
        g_has_ty(r, GTy::Struct(fs)),
    ensures
        obj_vals(r).len() == fs.len(),
        forall|j: int| 0 <= j < obj_vals(r).len()
            ==> g_has_ty(#[trigger] obj_vals(r)[j], fs[j].ty),
{
    match r {
        GVal::Obj(kvs) => {
            lemma_g_obj_ty(kvs, fs);
        },
        _ => {},
    }
}

} // verus!

verus! {

/// `deep_clean` on a one-field list.
pub proof fn lemma_deep_clean_one(f: GField)
    ensures
        deep_clean(seq![f]) == (dot_free(f.name) && (match f.ty {
            GTy::Struct(subs) => deep_clean(subs),
            _ => true,
        })),
{
    reveal_with_fuel(deep_clean, 2);
    assert(seq![f].subrange(1, 1) =~= Seq::<GField>::empty());
}

/// `flatten_ok` on a one-field list.
pub proof fn lemma_flatten_ok_one(f: GField)
    ensures
        flatten_ok(seq![f]) == (match f.ty {
            GTy::Struct(subs) => dot_free(f.name) && deep_clean(subs),
            _ => true,
        }),
{
    reveal_with_fuel(flatten_ok, 2);
    assert(seq![f].subrange(1, 1) =~= Seq::<GField>::empty());
}

/// `flat_fields` on a one-field list.
pub proof fn lemma_flat_fields_one(prefix: Seq<char>, f: GField)
    ensures
        flat_fields(prefix, seq![f]) == flat_field(prefix, f),
{
    reveal_with_fuel(flat_fields, 2);
    assert(seq![f].subrange(1, 1) =~= Seq::<GField>::empty());
    assert(flat_fields(prefix, seq![f]) =~= flat_field(prefix, f) + Seq::<GField>::empty());
    assert(flat_field(prefix, f) + Seq::<GField>::empty() =~= flat_field(prefix, f));
}

/// `flat_row` on a one-field list.
pub proof fn lemma_flat_row_one(f: GField, v: GVal)
    ensures
        flat_row(seq![f], seq![v]) == flat_cell(f, v),
{
    reveal_with_fuel(flat_row, 2);
    assert(seq![f].subrange(1, 1) =~= Seq::<GField>::empty());
    assert(seq![v].subrange(1, 1) =~= Seq::<GVal>::empty());
    assert(flat_row(seq![f], seq![v]) =~= flat_cell(f, v) + Seq::<GVal>::empty());
    assert(flat_cell(f, v) + Seq::<GVal>::empty() =~= flat_cell(f, v));
}

/// Whether every name in the tree is free of dots.
pub(crate) fn clean_fields(fs: &Vec<Field>) -> (r: bool)
    ensures
        r == deep_clean(gfields_of(fs@)),
    decreases tsizes(fs@),
{
    proof {
        lemma_gfields_of(fs@);
    }
    let ghost gf = gfields_of(fs@);
    let mut j: usize = 0;
    while j < fs.len()
        invariant
            gf == gfields_of(fs@),
            gf.len() == fs@.len(),
            forall|k: int| 0 <= k < fs@.len()
                ==> gf[k] == (GField { name: fs@[k].name@, ty: gty_of(fs@[k].ty) }),
            j <= fs@.len(),
            deep_clean(gf.subrange(0, j as int)),
        decreases fs@.len() - j,
    {
        let ghost pre = gf.subrange(0, j as int);
        proof {
            lemma_deep_clean_one(gf[j as int]);
            lemma_deep_clean_append(pre, seq![gf[j as int]]);
            assert(pre + seq![gf[j as int]] =~= gf.subrange(0, j as int + 1));
            lemma_deep_clean_append(gf.subrange(0, j as int + 1),
                gf.subrange(j as int + 1, gf.len() as int));
            assert(gf.subrange(0, j as int + 1) + gf.subrange(j as int + 1, gf.len() as int)
                =~= gf);
        }
        if has_char(fs[j].name.as_str(), '.') {
            return false;
        }
        let sub_ok = match &fs[j].ty {
            ColType::Struct(subs) => {
                proof {
                    lemma_tsizes_elem(fs@, j as int);
                    assert(gf[j as int].ty == GTy::Struct(gfields_of(subs@)));
                }
                clean_fields(subs)
            },
            _ => true,
        };
        if !sub_ok {
            return false;
        }
        j = j + 1;
    }
    proof {
        assert(gf.subrange(0, gf.len() as int) =~= gf);
    }
    true
}

/// Whether flattening will succeed on these fields.
pub(crate) fn fields_flatten_ok(fs: &Vec<Field>) -> (r: bool)
    ensures
        r == flatten_ok(gfields_of(fs@)),
{
    proof {
        lemma_gfields_of(fs@);
    }
    let ghost gf = gfields_of(fs@);
    let mut j: usize = 0;
    while j < fs.len()
        invariant
            gf == gfields_of(fs@),
            gf.len() == fs@.len(),
            forall|k: int| 0 <= k < fs@.len()
                ==> gf[k] == (GField { name: fs@[k].name@, ty: gty_of(fs@[k].ty) }),
            j <= fs@.len(),
            flatten_ok(gf.subrange(0, j as int)),
        decreases fs@.len() - j,
    {
        let ghost pre = gf.subrange(0, j as int);
        proof {
            lemma_flatten_ok_one(gf[j as int]);
            lemma_flatten_ok_append(pre, seq![gf[j as int]]);
            assert(pre + seq![gf[j as int]] =~= gf.subrange(0, j as int + 1));
            lemma_flatten_ok_append(gf.subrange(0, j as int + 1),
                gf.subrange(j as int + 1, gf.len() as int));
            assert(gf.subrange(0, j as int + 1) + gf.subrange(j as int + 1, gf.len() as int)
                =~= gf);
        }
        let ok = match &fs[j].ty {
            ColType::Struct(subs) => {
                proof {
                    assert(gf[j as int].ty == GTy::Struct(gfields_of(subs@)));
                }
                if has_char(fs[j].name.as_str(), '.') {
                    false
                } else {
                    clean_fields(subs)
                }
            },
            _ => true,
        };
        if !ok {
            return false;
        }
        j = j + 1;
    }
    proof {
        assert(gf.subrange(0, gf.len() as int) =~= gf);
    }
    true
}

/// The flattened form of a field list, under `prefix`.
pub(crate) fn flatten_fields_exec(prefix: &String, fs: &Vec<Field>) -> (out: Vec<Field>)
    ensures
        gfields_of(out@) == flat_fields(prefix@, gfields_of(fs@)),
    decreases tsizes(fs@),
{
    proof {
        lemma_gfields_of(fs@);
    }
    let ghost gf = gfields_of(fs@);
    let mut out: Vec<Field> = Vec::new();
    let mut j: usize = 0;
    proof {
        assert(gfields_of(out@) =~= Seq::<GField>::empty());
        assert(gf.subrange(0, 0) =~= Seq::<GField>::empty());
        assert(flat_fields(prefix@, gf.subrange(0, 0)) =~= Seq::<GField>::empty());
    }
    while j < fs.len()
        invariant
            gf == gfields_of(fs@),
            gf.len() == fs@.len(),
            forall|k: int| 0 <= k < fs@.len()
                ==> gf[k] == (GField { name: fs@[k].name@, ty: gty_of(fs@[k].ty) }),
            j <= fs@.len(),
            gfields_of(out@) == flat_fields(prefix@, gf.subrange(0, j as int)),
        decreases fs@.len() - j,
    {
        let ghost pre = gf.subrange(0, j as int);
        proof {
            lemma_flat_fields_one(prefix@, gf[j as int]);
            lemma_flat_fields_append(prefix@, pre, seq![gf[j as int]]);
            assert(pre + seq![gf[j as int]] =~= gf.subrange(0, j as int + 1));
        }
        let ghost before = out@;
        match &fs[j].ty {
            ColType::Struct(subs) => {
                proof {
                    lemma_tsizes_elem(fs@, j as int);
                    reveal_strlit(".");
                    assert("."@ =~= seq!['.']);
                    assert(gf[j as int].ty == GTy::Struct(gfields_of(subs@)));
                }
                let mut sub_prefix = prefix.clone();
                sub_prefix.append(fs[j].name.as_str());
                sub_prefix.append(".");
                let sub = flatten_fields_exec(&sub_prefix, subs);
                let ghost gsub = gfields_of(sub@);
                proof {
                    assert(sub_prefix@ =~= prefix@ + gf[j as int].name + seq!['.']);
                    assert(gsub == flat_field(prefix@, gf[j as int]));
                    lemma_gfields_of(sub@);
                }
                let mut p: usize = 0;
                while p < sub.len()
                    invariant
                        gsub == gfields_of(sub@),
                        gsub.len() == sub@.len(),
                        forall|k: int| 0 <= k < sub@.len()
                            ==> gsub[k]
                                == (GField { name: sub@[k].name@, ty: gty_of(sub@[k].ty) }),
                        p <= sub@.len(),
                        gfields_of(out@) == gfields_of(before) + gsub.subrange(0, p as int),
                    decreases sub@.len() - p,
                {
                    let ghost obefore = out@;
                    out.push(sub[p].clone());
                    proof {
                        assert(out@ =~= obefore + seq![out@.last()]);
                        lemma_gfields_of_append(obefore, seq![out@.last()]);
                        lemma_gfields_of_one(out@.last());
                        assert(gfields_of(seq![out@.last()]) =~= seq![gsub[p as int]]);
                        assert(gfields_of(out@)
                            =~= gfields_of(before) + gsub.subrange(0, p as int + 1));
                    }
                    p = p + 1;
                }
                proof {
                    assert(gsub.subrange(0, gsub.len() as int) =~= gsub);
                    assert(gfields_of(out@) =~= flat_fields(prefix@, gf.subrange(0, j as int + 1)));
                }
            },
            _ => {
                let mut name = prefix.clone();
                name.append(fs[j].name.as_str());
                let ghost gname = name@;
                out.push(Field { name, ty: fs[j].ty.clone() });
                proof {
                    assert(out@ =~= before + seq![out@.last()]);
                    lemma_gfields_of_append(before, seq![out@.last()]);
                    lemma_gfields_of_one(out@.last());
                    assert(gname =~= prefix@ + gf[j as int].name);
                    assert(!(gf[j as int].ty matches GTy::Struct(_)));
                    assert(flat_field(prefix@, gf[j as int])
                        == seq![GField { name: prefix@ + gf[j as int].name, ty: gf[j as int].ty }]);
                    assert(gfields_of(seq![out@.last()])
                        =~= seq![GField { name: prefix@ + gf[j as int].name, ty: gf[j as int].ty }]);
                    assert(gfields_of(out@)
                        =~= flat_fields(prefix@, gf.subrange(0, j as int + 1)));
                }
            },
        }
        j = j + 1;
    }
    proof {
        assert(gf.subrange(0, gf.len() as int) =~= gf);
    }
    out
}

} // verus!

verus! {

/// The flattened form of a row that conforms to `fs`.
pub(crate) fn flatten_row_exec(fs: &Vec<Field>, row: &Vec<JsonVal>) -> (out: Vec<JsonVal>)
    requires
        gvals_of(row@).len() == gfields_of(fs@).len(),
        forall|j: int| 0 <= j < gvals_of(row@).len()
            ==> g_has_ty(#[trigger] gvals_of(row@)[j], gfields_of(fs@)[j].ty),
    ensures
        gvals_of(out@) == flat_row(gfields_of(fs@), gvals_of(row@)),
    decreases tsizes(fs@),
{
    proof {
        lemma_gfields_of(fs@);
        lemma_gvals_of(row@);
    }
    let ghost gf = gfields_of(fs@);
    let ghost gr = gvals_of(row@);
    let mut out: Vec<JsonVal> = Vec::new();
    let mut j: usize = 0;
    proof {
        assert(gvals_of(out@) =~= Seq::<GVal>::empty());
        assert(gf.subrange(0, 0) =~= Seq::<GField>::empty());
        assert(gr.subrange(0, 0) =~= Seq::<GVal>::empty());
        assert(flat_row(gf.subrange(0, 0), gr.subrange(0, 0)) =~= Seq::<GVal>::empty());
    }
    while j < fs.len()
        invariant
            gf == gfields_of(fs@),
            gr == gvals_of(row@),
            gf.len() == fs@.len(),
            gr.len() == gf.len(),
            gr.len() == row@.len(),
            forall|k: int| 0 <= k < fs@.len()
                ==> gf[k] == (GField { name: fs@[k].name@, ty: gty_of(fs@[k].ty) }),
            forall|k: int| 0 <= k < row@.len() ==> gr[k] == gval_of(row@[k]),
            forall|k: int| 0 <= k < gr.len() ==> g_has_ty(#[trigger] gr[k], gf[k].ty),
            j <= fs@.len(),
            gvals_of(out@) == flat_row(gf.subrange(0, j as int), gr.subrange(0, j as int)),
        decreases fs@.len() - j,
    {
        let ghost pref = gf.subrange(0, j as int);
        let ghost prer = gr.subrange(0, j as int);
        proof {
            lemma_flat_row_one(gf[j as int], gr[j as int]);
            lemma_flat_row_append(pref, seq![gf[j as int]], prer, seq![gr[j as int]]);
            assert(pref + seq![gf[j as int]] =~= gf.subrange(0, j as int + 1));
            assert(prer + seq![gr[j as int]] =~= gr.subrange(0, j as int + 1));
        }
        let ghost before = out@;
        match &fs[j].ty {
            ColType::Struct(subs) => {
                proof {
                    lemma_tsizes_elem(fs@, j as int);
                    assert(gf[j as int].ty == GTy::Struct(gfields_of(subs@)));
                    assert(g_has_ty(gr[j as int], GTy::Struct(gfields_of(subs@))));
                }
                match &row[j] {
                    JsonVal::Obj(kvs) => {
                        proof {
                            lemma_gpairs_of(kvs@);
                            assert(gr[j as int] == GVal::Obj(gpairs_of(kvs@)));
                        }
                        let mut vals: Vec<JsonVal> = Vec::new();
                        let mut q: usize = 0;
                        while q < kvs.len()
                            invariant
                                row@[j as int] == JsonVal::Obj(*kvs),
                                q <= kvs@.len(),
                                vals@.len() == q,
                                gpairs_of(kvs@).len() == kvs@.len(),
                                forall|p: int| 0 <= p < kvs@.len()
                                    ==> gpairs_of(kvs@)[p] == (kvs@[p].0@, gval_of(kvs@[p].1)),
                                forall|p: int| 0 <= p < q
                                    ==> gval_of(#[trigger] vals@[p]) == gpairs_of(kvs@)[p].1,
                            decreases kvs@.len() - q,
                        {
                            vals.push(kvs[q].1.clone());
                            q = q + 1;
                        }
                        proof {
                            lemma_gvals_of(vals@);
                            assert(gvals_of(vals@) =~= obj_vals(gr[j as int]));
                            lemma_row_from_obj_pub(gr[j as int], gfields_of(subs@));
                        }
                        let sub = flatten_row_exec(subs, &vals);
                        let ghost gsub = gvals_of(sub@);
                        proof {
                            assert(gsub == flat_cell(gf[j as int], gr[j as int]));
                            lemma_gvals_of(sub@);
                        }
                        let mut p: usize = 0;
                        while p < sub.len()
                            invariant
                                gsub == gvals_of(sub@),
                                gsub.len() == sub@.len(),
                                forall|k: int| 0 <= k < sub@.len()
                                    ==> gsub[k] == gval_of(sub@[k]),
                                p <= sub@.len(),
                                gvals_of(out@) == gvals_of(before) + gsub.subrange(0, p as int),
                            decreases sub@.len() - p,
                        {
                            let ghost obefore = out@;
                            out.push(sub[p].clone());
                            proof {
                                assert(out@ =~= obefore + seq![out@.last()]);
                                lemma_gvals_of_append(obefore, seq![out@.last()]);
                                lemma_gvals_of_one(out@.last());
                                assert(gvals_of(seq![out@.last()]) =~= seq![gsub[p as int]]);
                                assert(gvals_of(out@)
                                    =~= gvals_of(before) + gsub.subrange(0, p as int + 1));
                            }
                            p = p + 1;
                        }
                        proof {
                            assert(gsub.subrange(0, gsub.len() as int) =~= gsub);
                            assert(gvals_of(out@) =~= flat_row(
                                gf.subrange(0, j as int + 1),
                                gr.subrange(0, j as int + 1),
                            ));
                        }
                    },
                    _ => {
                        proof {
                            assert(false);
                        }
                    },
                }
            },
            _ => {
                out.push(row[j].clone());
                proof {
                    assert(out@ =~= before + seq![out@.last()]);
                    lemma_gvals_of_append(before, seq![out@.last()]);
                    lemma_gvals_of_one(out@.last());
                    assert(!(gf[j as int].ty matches GTy::Struct(_)));
                    assert(flat_cell(gf[j as int], gr[j as int]) == seq![gr[j as int]]);
                    assert(gvals_of(seq![out@.last()]) =~= seq![gr[j as int]]);
                    assert(gvals_of(out@) =~= flat_row(
                        gf.subrange(0, j as int + 1),
                        gr.subrange(0, j as int + 1),
                    ));
                }
            },
        }
        j = j + 1;
    }
    proof {
        assert(gf.subrange(0, gf.len() as int) =~= gf);
        assert(gr.subrange(0, gr.len() as int) =~= gr);
    }
    out
}

/// A value that conforms to a struct type yields a conforming row of
/// values.
pub proof fn lemma_row_from_obj_pub(r: GVal, fs: Seq<GField>)
    requires
        g_has_ty(r, GTy::Struct(fs)),
    ensures
        obj_vals(r).len() == fs.len(),
        forall|j: int| 0 <= j < obj_vals(r).len()
            ==> g_has_ty(#[trigger] obj_vals(r)[j], fs[j].ty),
{
    lemma_row_from_obj_local(r, fs);
}

} // verus!

verus! {

/// The position of the first dot in a name, or the name's length when
/// it has none.
pub open spec fn first_dot(n: Seq<char>) -> int
    decreases n.len(),
{
    if n.len() == 0 {
        0
    } else if n[0] == '.' {
        0
    } else {
        1 + first_dot(n.subrange(1, n.len() as int))
    }
}

/// The first dot's position is within the name, and marks a dot exactly
/// when the name has one.
pub proof fn lemma_first_dot(n: Seq<char>)
    ensures
        0 <= first_dot(n) <= n.len(),
        n.contains('.') <==> first_dot(n) < n.len(),
        first_dot(n) < n.len() ==> n[first_dot(n)] == '.',
        forall|i: int| 0 <= i < first_dot(n) ==> n[i] != '.',
    decreases n.len(),
{
    if n.len() > 0 && n[0] != '.' {
        let rest = n.subrange(1, n.len() as int);
        lemma_first_dot(rest);
        assert(forall|i: int| 0 <= i < rest.len() ==> #[trigger] rest[i] == n[i + 1]);
        assert forall|i: int| 0 <= i < first_dot(n) implies n[i] != '.' by {
            if i > 0 {
                assert(rest[i - 1] == n[i]);
            }
        }
        if n.contains('.') {
            let i = choose|i: int| 0 <= i < n.len() && n[i] == '.';
            assert(rest[i - 1] == '.');
            assert(rest.contains('.'));
        }
        if rest.contains('.') {
            let i = choose|i: int| 0 <= i < rest.len() && rest[i] == '.';
            assert(n[i + 1] == '.');
        }
    }
}

/// The segment of a dotted name before its first dot.
pub open spec fn root_of(n: Seq<char>) -> Seq<char> {
    n.subrange(0, first_dot(n))
}

/// The rest of a dotted name after its first dot.
pub open spec fn local_of(n: Seq<char>) -> Seq<char> {
    n.subrange(first_dot(n) + 1, n.len() as int)
}

/// Total length of the names in a paired column list.
pub open spec fn psize(ps: Seq<(GField, GVal)>) -> nat
    decreases ps,
{
    if ps.len() == 0 {
        0nat
    } else {
        proof {
            assert(decreases_to!(ps => ps[0]));
        }
        ps[0].0.name.len() + psize(ps.subrange(1, ps.len() as int))
    }
}

/// The group members for root `r`: the dotted columns whose root is `r`,
/// renamed to their local names, in order.
pub open spec fn grp_local(ps: Seq<(GField, GVal)>, r: Seq<char>) -> Seq<(GField, GVal)>
    decreases ps,
{
    if ps.len() == 0 {
        Seq::empty()
    } else {
        (if ps[0].0.name.contains('.') && root_of(ps[0].0.name) == r {
            seq![
                (GField { name: local_of(ps[0].0.name), ty: ps[0].0.ty }, ps[0].1),
            ]
        } else {
            Seq::empty()
        }) + grp_local(ps.subrange(1, ps.len() as int), r)
    }
}

/// The columns that are not group members for root `r`, in order.
pub open spec fn not_root(ps: Seq<(GField, GVal)>, r: Seq<char>) -> Seq<(GField, GVal)>
    decreases ps,
{
    if ps.len() == 0 {
        Seq::empty()
    } else {
        (if ps[0].0.name.contains('.') && root_of(ps[0].0.name) == r {
            Seq::empty()
        } else {
            seq![ps[0]]
        }) + not_root(ps.subrange(1, ps.len() as int), r)
    }
}

/// A group's names are shorter than the originals by at least one
/// character per member.
pub proof fn lemma_grp_psize(ps: Seq<(GField, GVal)>, r: Seq<char>)
    ensures
        psize(grp_local(ps, r)) + grp_local(ps, r).len() <= psize(ps),
        grp_local(ps, r).len() <= ps.len(),
    decreases ps,
{
    if ps.len() > 0 {
        let rest = ps.subrange(1, ps.len() as int);
        lemma_grp_psize(rest, r);
        if ps[0].0.name.contains('.') && root_of(ps[0].0.name) == r {
            lemma_first_dot(ps[0].0.name);
            let one = seq![
                (GField { name: local_of(ps[0].0.name), ty: ps[0].0.ty }, ps[0].1),
            ];
            assert((one + grp_local(rest, r)).subrange(1, (one + grp_local(rest, r)).len() as int)
                =~= grp_local(rest, r));
            assert((one + grp_local(rest, r))[0] == one[0]);
            assert(local_of(ps[0].0.name).len() < ps[0].0.name.len());
        } else {
            assert(Seq::<(GField, GVal)>::empty() + grp_local(rest, r) =~= grp_local(rest, r));
        }
    }
}

/// The non-members keep their names; their total size never grows.
pub proof fn lemma_not_root_psize(ps: Seq<(GField, GVal)>, r: Seq<char>)
    ensures
        psize(not_root(ps, r)) <= psize(ps),
        not_root(ps, r).len() <= ps.len(),
    decreases ps,
{
    if ps.len() > 0 {
        let rest = ps.subrange(1, ps.len() as int);
        lemma_not_root_psize(rest, r);
        if ps[0].0.name.contains('.') && root_of(ps[0].0.name) == r {
            assert(Seq::<(GField, GVal)>::empty() + not_root(rest, r) =~= not_root(rest, r));
        } else {
            let one = seq![ps[0]];
            assert((one + not_root(rest, r)).subrange(1, (one + not_root(rest, r)).len() as int)
                =~= not_root(rest, r));
            assert((one + not_root(rest, r))[0] == ps[0]);
        }
    }
}

/// The fields of a paired column list.
pub open spec fn pairs_fields(ps: Seq<(GField, GVal)>) -> Seq<GField> {
    Seq::new(ps.len(), |i: int| ps[i].0)
}

/// The values of a paired column list.
pub open spec fn pairs_vals(ps: Seq<(GField, GVal)>) -> Seq<GVal> {
    Seq::new(ps.len(), |i: int| ps[i].1)
}

/// The `(name, value)` pairs of a paired column list, as an object's
/// contents.
pub open spec fn pairs_obj(ps: Seq<(GField, GVal)>) -> Seq<(Seq<char>, GVal)> {
    Seq::new(ps.len(), |i: int| (ps[i].0.name, ps[i].1))
}

/// Unflatten one row's columns: a dot-free column passes through; the
/// first column of each dotted root becomes one struct column gathering
/// every column of that root, recursively unflattened, at the first
/// root's position.
pub open spec fn unflat(ps: Seq<(GField, GVal)>) -> Seq<(GField, GVal)>
    decreases psize(ps), ps.len(),
{
    if ps.len() == 0 {
        Seq::empty()
    } else if !ps[0].0.name.contains('.') {
        proof {
            assert(psize(ps) == ps[0].0.name.len() + psize(ps.subrange(1, ps.len() as int)));
        }
        seq![ps[0]] + unflat(ps.subrange(1, ps.len() as int))
    } else {
        let r = root_of(ps[0].0.name);
        let grp = grp_local(ps, r);
        let rest2 = not_root(ps.subrange(1, ps.len() as int), r);
        proof {
            lemma_first_dot(ps[0].0.name);
            lemma_grp_psize(ps, r);
            assert(grp.len() >= 1) by {
                assert(grp[0] == (GField { name: local_of(ps[0].0.name), ty: ps[0].0.ty },
                    ps[0].1));
            }
            lemma_not_root_psize(ps.subrange(1, ps.len() as int), r);
            assert(psize(ps) == ps[0].0.name.len() + psize(ps.subrange(1, ps.len() as int)));
        }
        let sub = unflat(grp);
        seq![
            (GField { name: r, ty: GTy::Struct(pairs_fields(sub)) }, GVal::Obj(pairs_obj(sub))),
        ] + unflat(rest2)
    }
}

/// The paired form of a schema with a row.
pub open spec fn row_pairs(fs: Seq<GField>, row: Seq<GVal>) -> Seq<(GField, GVal)> {
    Seq::new(fs.len(), |i: int| (fs[i], row[i]))
}

/// The paired form of a schema alone, every value null.
pub open spec fn schema_pairs(fs: Seq<GField>) -> Seq<(GField, GVal)> {
    Seq::new(fs.len(), |i: int| (fs[i], GVal::Null))
}

/// The unflattened form of a schema.
pub open spec fn unflat_schema(fs: Seq<GField>) -> Seq<GField> {
    pairs_fields(unflat(schema_pairs(fs)))
}

} // verus!

verus! {

/// `grp_local` distributes over concatenation.
pub proof fn lemma_grp_local_append(
    a: Seq<(GField, GVal)>,
    b: Seq<(GField, GVal)>,
    r: Seq<char>,
)
    ensures
        grp_local(a + b, r) == grp_local(a, r) + grp_local(b, r),
    decreases a,
{
    if a.len() == 0 {
        assert(a + b =~= b);
        assert(grp_local(a, r) + grp_local(b, r) =~= grp_local(b, r));
    } else {
        lemma_grp_local_append(a.subrange(1, a.len() as int), b, r);
        assert((a + b).subrange(1, (a + b).len() as int) =~= a.subrange(1, a.len() as int) + b);
        assert((a + b)[0] == a[0]);
        if a[0].0.name.contains('.') && root_of(a[0].0.name) == r {
            let one = seq![(GField { name: local_of(a[0].0.name), ty: a[0].0.ty }, a[0].1)];
            assert(one + (grp_local(a.subrange(1, a.len() as int), r) + grp_local(b, r))
                =~= (one + grp_local(a.subrange(1, a.len() as int), r)) + grp_local(b, r));
        } else {
            assert(Seq::<(GField, GVal)>::empty()
                + (grp_local(a.subrange(1, a.len() as int), r) + grp_local(b, r))
                =~= (Seq::<(GField, GVal)>::empty()
                    + grp_local(a.subrange(1, a.len() as int), r)) + grp_local(b, r));
        }
    }
}

/// `not_root` distributes over concatenation.
pub proof fn lemma_not_root_append(
    a: Seq<(GField, GVal)>,
    b: Seq<(GField, GVal)>,
    r: Seq<char>,
)
    ensures
        not_root(a + b, r) == not_root(a, r) + not_root(b, r),
    decreases a,
{
    if a.len() == 0 {
        assert(a + b =~= b);
        assert(not_root(a, r) + not_root(b, r) =~= not_root(b, r));
    } else {
        lemma_not_root_append(a.subrange(1, a.len() as int), b, r);
        assert((a + b).subrange(1, (a + b).len() as int) =~= a.subrange(1, a.len() as int) + b);
        assert((a + b)[0] == a[0]);
        if a[0].0.name.contains('.') && root_of(a[0].0.name) == r {
            assert(Seq::<(GField, GVal)>::empty()
                + (not_root(a.subrange(1, a.len() as int), r) + not_root(b, r))
                =~= (Seq::<(GField, GVal)>::empty()
                    + not_root(a.subrange(1, a.len() as int), r)) + not_root(b, r));
        } else {
            let one = seq![a[0]];
            assert(one + (not_root(a.subrange(1, a.len() as int), r) + not_root(b, r))
                =~= (one + not_root(a.subrange(1, a.len() as int), r)) + not_root(b, r));
        }
    }
}

/// Unflattening keeps conformance: when every column's value conforms to
/// its field's type, so does every unflattened column's.
pub proof fn lemma_unflat_conforms(ps: Seq<(GField, GVal)>)
    requires
        forall|i: int| 0 <= i < ps.len()
            ==> g_has_ty((#[trigger] ps[i]).1, ps[i].0.ty),
    ensures
        unflat(ps).len() <= ps.len(),
        forall|i: int| 0 <= i < unflat(ps).len()
            ==> g_has_ty((#[trigger] unflat(ps)[i]).1, unflat(ps)[i].0.ty),
    decreases psize(ps), ps.len(),
{
    if ps.len() == 0 {
    } else if !ps[0].0.name.contains('.') {
        let rest = ps.subrange(1, ps.len() as int);
        assert(forall|i: int| 0 <= i < rest.len() ==> #[trigger] rest[i] == ps[i + 1]);
        lemma_unflat_conforms(rest);
        assert forall|i: int| 0 <= i < unflat(ps).len()
            implies g_has_ty((#[trigger] unflat(ps)[i]).1, unflat(ps)[i].0.ty) by {
            if i == 0 {
                assert(unflat(ps)[0] == ps[0]);
            } else {
                assert(unflat(ps)[i] == unflat(rest)[i - 1]);
            }
        }
    } else {
        let r = root_of(ps[0].0.name);
        let grp = grp_local(ps, r);
        let rest2 = not_root(ps.subrange(1, ps.len() as int), r);
        lemma_first_dot(ps[0].0.name);
        lemma_grp_psize(ps, r);
        assert(grp[0] == (GField { name: local_of(ps[0].0.name), ty: ps[0].0.ty }, ps[0].1));
        lemma_not_root_psize(ps.subrange(1, ps.len() as int), r);
        assert(psize(ps) == ps[0].0.name.len() + psize(ps.subrange(1, ps.len() as int)));
        lemma_grp_conforms(ps, r);
        lemma_not_root_conforms(ps.subrange(1, ps.len() as int), r);
        lemma_unflat_conforms(grp);
        lemma_unflat_conforms(rest2);
        let sub = unflat(grp);
        let head = (GField { name: r, ty: GTy::Struct(pairs_fields(sub)) },
            GVal::Obj(pairs_obj(sub)));
        assert(g_has_ty(head.1, head.0.ty)) by {
            lemma_g_obj_ty(pairs_obj(sub), pairs_fields(sub));
            assert forall|j: int| 0 <= j < pairs_obj(sub).len()
                implies (#[trigger] pairs_obj(sub)[j]).0 == pairs_fields(sub)[j].name
                    && g_has_ty(pairs_obj(sub)[j].1, pairs_fields(sub)[j].ty) by {
                assert(g_has_ty((#[trigger] unflat(grp)[j]).1, unflat(grp)[j].0.ty));
            }
        }
        assert forall|i: int| 0 <= i < unflat(ps).len()
            implies g_has_ty((#[trigger] unflat(ps)[i]).1, unflat(ps)[i].0.ty) by {
            if i == 0 {
                assert(unflat(ps)[0] == head);
            } else {
                assert(unflat(ps)[i] == unflat(rest2)[i - 1]);
            }
        }
        assert(unflat(ps).len() <= ps.len()) by {
            assert(unflat(grp).len() <= grp.len());
            assert(unflat(rest2).len() <= rest2.len());
        }
    }
}

/// Group members keep their conformance.
proof fn lemma_grp_conforms(ps: Seq<(GField, GVal)>, r: Seq<char>)
    requires
        forall|i: int| 0 <= i < ps.len()
            ==> g_has_ty((#[trigger] ps[i]).1, ps[i].0.ty),
    ensures
        forall|i: int| 0 <= i < grp_local(ps, r).len()
            ==> g_has_ty((#[trigger] grp_local(ps, r)[i]).1, grp_local(ps, r)[i].0.ty),
    decreases ps,
{
    if ps.len() > 0 {
        let rest = ps.subrange(1, ps.len() as int);
        assert(forall|i: int| 0 <= i < rest.len() ==> #[trigger] rest[i] == ps[i + 1]);
        lemma_grp_conforms(rest, r);
        assert forall|i: int| 0 <= i < grp_local(ps, r).len()
            implies g_has_ty((#[trigger] grp_local(ps, r)[i]).1, grp_local(ps, r)[i].0.ty) by {
            if ps[0].0.name.contains('.') && root_of(ps[0].0.name) == r {
                if i == 0 {
                    assert(grp_local(ps, r)[0]
                        == (GField { name: local_of(ps[0].0.name), ty: ps[0].0.ty }, ps[0].1));
                } else {
                    assert(grp_local(ps, r)[i] == grp_local(rest, r)[i - 1]);
                }
            } else {
                assert(grp_local(ps, r)[i] == grp_local(rest, r)[i]);
            }
        }
    }
}

/// Non-members keep their conformance.
proof fn lemma_not_root_conforms(ps: Seq<(GField, GVal)>, r: Seq<char>)
    requires
        forall|i: int| 0 <= i < ps.len()
            ==> g_has_ty((#[trigger] ps[i]).1, ps[i].0.ty),
    ensures
        forall|i: int| 0 <= i < not_root(ps, r).len()
            ==> g_has_ty((#[trigger] not_root(ps, r)[i]).1, not_root(ps, r)[i].0.ty),
    decreases ps,
{
    if ps.len() > 0 {
        let rest = ps.subrange(1, ps.len() as int);
        assert(forall|i: int| 0 <= i < rest.len() ==> #[trigger] rest[i] == ps[i + 1]);
        lemma_not_root_conforms(rest, r);
        assert forall|i: int| 0 <= i < not_root(ps, r).len()
            implies g_has_ty((#[trigger] not_root(ps, r)[i]).1, not_root(ps, r)[i].0.ty) by {
            if ps[0].0.name.contains('.') && root_of(ps[0].0.name) == r {
                assert(not_root(ps, r)[i] == not_root(rest, r)[i]);
            } else {
                if i == 0 {
                    assert(not_root(ps, r)[0] == ps[0]);
                } else {
                    assert(not_root(ps, r)[i] == not_root(rest, r)[i - 1]);
                }
            }
        }
    }
}

/// The unflattened fields depend only on the input fields, not on the
/// values paired with them.
pub proof fn lemma_unflat_fields_indep(ps1: Seq<(GField, GVal)>, ps2: Seq<(GField, GVal)>)
    requires
        pairs_fields(ps1) == pairs_fields(ps2),
    ensures
        pairs_fields(unflat(ps1)) == pairs_fields(unflat(ps2)),
    decreases psize(ps1), ps1.len(),
{
    assert(pairs_fields(ps1).len() == ps1.len());
    assert(pairs_fields(ps2).len() == ps2.len());
    assert(ps1.len() == ps2.len());
    assert forall|i: int| 0 <= i < ps1.len()
        implies (#[trigger] ps1[i]).0 == ps2[i].0 by {
        assert(pairs_fields(ps1)[i] == pairs_fields(ps2)[i]);
    }
    if ps1.len() == 0 {
        assert(pairs_fields(unflat(ps1)) =~= pairs_fields(unflat(ps2)));
    } else if !ps1[0].0.name.contains('.') {
        let r1 = ps1.subrange(1, ps1.len() as int);
        let r2 = ps2.subrange(1, ps2.len() as int);
        assert(pairs_fields(r1) =~= pairs_fields(r2)) by {
            assert forall|i: int| 0 <= i < r1.len()
                implies (#[trigger] pairs_fields(r1)[i]) == pairs_fields(r2)[i] by {
                assert(r1[i] == ps1[i + 1]);
                assert(r2[i] == ps2[i + 1]);
            }
        }
        assert(psize(ps1) == ps1[0].0.name.len() + psize(r1));
        lemma_unflat_fields_indep(r1, r2);
        let u1 = unflat(ps1);
        let u2 = unflat(ps2);
        assert(u1 == seq![ps1[0]] + unflat(r1));
        assert(u2 == seq![ps2[0]] + unflat(r2));
        assert(pairs_fields(unflat(r1)).len() == unflat(r1).len());
        assert(pairs_fields(unflat(r2)).len() == unflat(r2).len());
        assert(pairs_fields(u1) =~= pairs_fields(u2)) by {
            assert forall|i: int| 0 <= i < u1.len()
                implies (#[trigger] pairs_fields(u1)[i]) == pairs_fields(u2)[i] by {
                if i == 0 {
                    assert(u1[0] == ps1[0]);
                    assert(u2[0] == ps2[0]);
                } else {
                    assert(u1[i] == unflat(r1)[i - 1]);
                    assert(u2[i] == unflat(r2)[i - 1]);
                    assert(pairs_fields(unflat(r1))[i - 1] == pairs_fields(unflat(r2))[i - 1]);
                }
            }
        }
    } else {
        let r = root_of(ps1[0].0.name);
        lemma_first_dot(ps1[0].0.name);
        lemma_grp_psize(ps1, r);
        assert(grp_local(ps1, r)[0] == (GField {
            name: local_of(ps1[0].0.name),
            ty: ps1[0].0.ty,
        }, ps1[0].1));
        let t1 = ps1.subrange(1, ps1.len() as int);
        let t2 = ps2.subrange(1, ps2.len() as int);
        assert(pairs_fields(t1) =~= pairs_fields(t2)) by {
            assert forall|i: int| 0 <= i < t1.len()
                implies (#[trigger] pairs_fields(t1)[i]) == pairs_fields(t2)[i] by {
                assert(t1[i] == ps1[i + 1]);
                assert(t2[i] == ps2[i + 1]);
            }
        }
        lemma_not_root_psize(t1, r);
        assert(psize(ps1) == ps1[0].0.name.len() + psize(t1));
        lemma_grp_fields_indep(ps1, ps2, r);
        lemma_not_root_fields_indep(t1, t2, r);
        let g1 = grp_local(ps1, r);
        let g2 = grp_local(ps2, r);
        let n1 = not_root(t1, r);
        let n2 = not_root(t2, r);
        lemma_psize_fields(g1, g2);
        lemma_unflat_fields_indep(g1, g2);
        lemma_psize_fields(n1, n2);
        assert(psize(n1) <= psize(t1));
        lemma_unflat_fields_indep(n1, n2);
        let u1 = unflat(ps1);
        let u2 = unflat(ps2);
        assert(ps2[0].0 == ps1[0].0);
        assert(root_of(ps2[0].0.name) == r);
        let h1 = (GField { name: r, ty: GTy::Struct(pairs_fields(unflat(g1))) },
            GVal::Obj(pairs_obj(unflat(g1))));
        let h2 = (GField { name: r, ty: GTy::Struct(pairs_fields(unflat(g2))) },
            GVal::Obj(pairs_obj(unflat(g2))));
        assert(u1 == seq![h1] + unflat(n1));
        assert(u2 == seq![h2] + unflat(n2));
        assert(h1.0 == h2.0);
        assert(pairs_fields(unflat(n1)).len() == unflat(n1).len());
        assert(pairs_fields(unflat(n2)).len() == unflat(n2).len());
        assert(pairs_fields(u1) =~= pairs_fields(u2)) by {
            assert forall|i: int| 0 <= i < u1.len()
                implies (#[trigger] pairs_fields(u1)[i]) == pairs_fields(u2)[i] by {
                if i == 0 {
                    assert(u1[0] == h1);
                    assert(u2[0] == h2);
                } else {
                    assert(u1[i] == unflat(n1)[i - 1]);
                    assert(u2[i] == unflat(n2)[i - 1]);
                    assert(pairs_fields(unflat(n1))[i - 1] == pairs_fields(unflat(n2))[i - 1]);
                }
            }
        }
    }
}

/// Equal fields give equal name sizes.
proof fn lemma_psize_fields(a: Seq<(GField, GVal)>, b: Seq<(GField, GVal)>)
    requires
        pairs_fields(a) == pairs_fields(b),
    ensures
        psize(a) == psize(b),
    decreases a,
{
    assert(pairs_fields(a).len() == a.len());
    assert(pairs_fields(b).len() == b.len());
    if a.len() > 0 {
        assert(a[0].0 == b[0].0) by {
            assert(pairs_fields(a)[0] == pairs_fields(b)[0]);
        }
        let ra = a.subrange(1, a.len() as int);
        let rb = b.subrange(1, b.len() as int);
        assert(pairs_fields(ra) =~= pairs_fields(rb)) by {
            assert forall|i: int| 0 <= i < ra.len()
                implies (#[trigger] pairs_fields(ra)[i]) == pairs_fields(rb)[i] by {
                assert(ra[i] == a[i + 1]);
                assert(rb[i] == b[i + 1]);
                assert(pairs_fields(a)[i + 1] == pairs_fields(b)[i + 1]);
            }
        }
        lemma_psize_fields(ra, rb);
    }
}

/// Group membership and local renaming depend only on the fields.
proof fn lemma_grp_fields_indep(ps1: Seq<(GField, GVal)>, ps2: Seq<(GField, GVal)>, r: Seq<char>)
    requires
        pairs_fields(ps1) == pairs_fields(ps2),
    ensures
        pairs_fields(grp_local(ps1, r)) == pairs_fields(grp_local(ps2, r)),
    decreases ps1,
{
    assert(pairs_fields(ps1).len() == ps1.len());
    assert(pairs_fields(ps2).len() == ps2.len());
    if ps1.len() > 0 {
        assert(ps1[0].0 == ps2[0].0) by {
            assert(pairs_fields(ps1)[0] == pairs_fields(ps2)[0]);
        }
        let r1 = ps1.subrange(1, ps1.len() as int);
        let r2 = ps2.subrange(1, ps2.len() as int);
        assert(pairs_fields(r1) =~= pairs_fields(r2)) by {
            assert forall|i: int| 0 <= i < r1.len()
                implies (#[trigger] pairs_fields(r1)[i]) == pairs_fields(r2)[i] by {
                assert(r1[i] == ps1[i + 1]);
                assert(r2[i] == ps2[i + 1]);
                assert(pairs_fields(ps1)[i + 1] == pairs_fields(ps2)[i + 1]);
            }
        }
        lemma_grp_fields_indep(r1, r2, r);
        let gr1 = grp_local(r1, r);
        let gr2 = grp_local(r2, r);
        assert(pairs_fields(gr1).len() == gr1.len());
        assert(pairs_fields(gr2).len() == gr2.len());
        if ps1[0].0.name.contains('.') && root_of(ps1[0].0.name) == r {
            let o1 = seq![(GField { name: local_of(ps1[0].0.name), ty: ps1[0].0.ty }, ps1[0].1)];
            let o2 = seq![(GField { name: local_of(ps2[0].0.name), ty: ps2[0].0.ty }, ps2[0].1)];
            assert(grp_local(ps1, r) == o1 + gr1);
            assert(grp_local(ps2, r) == o2 + gr2);
            assert(o1[0].0 == o2[0].0);
            assert(pairs_fields(grp_local(ps1, r)) =~= pairs_fields(grp_local(ps2, r))) by {
                assert forall|i: int| 0 <= i < grp_local(ps1, r).len()
                    implies (#[trigger] pairs_fields(grp_local(ps1, r))[i])
                        == pairs_fields(grp_local(ps2, r))[i] by {
                    if i == 0 {
                        assert(grp_local(ps1, r)[0] == o1[0]);
                        assert(grp_local(ps2, r)[0] == o2[0]);
                    } else {
                        assert(grp_local(ps1, r)[i] == gr1[i - 1]);
                        assert(grp_local(ps2, r)[i] == gr2[i - 1]);
                        assert(pairs_fields(gr1)[i - 1] == pairs_fields(gr2)[i - 1]);
                    }
                }
            }
        } else {
            assert(grp_local(ps1, r) == Seq::<(GField, GVal)>::empty() + gr1);
            assert(grp_local(ps2, r) == Seq::<(GField, GVal)>::empty() + gr2);
            assert(grp_local(ps1, r) =~= gr1);
            assert(grp_local(ps2, r) =~= gr2);
        }
    } else {
        assert(pairs_fields(grp_local(ps1, r)) =~= pairs_fields(grp_local(ps2, r)));
    }
}

/// Non-membership depends only on the fields.
proof fn lemma_not_root_fields_indep(
    ps1: Seq<(GField, GVal)>,
    ps2: Seq<(GField, GVal)>,
    r: Seq<char>,
)
    requires
        pairs_fields(ps1) == pairs_fields(ps2),
    ensures
        pairs_fields(not_root(ps1, r)) == pairs_fields(not_root(ps2, r)),
    decreases ps1,
{
    assert(pairs_fields(ps1).len() == ps1.len());
    assert(pairs_fields(ps2).len() == ps2.len());
    if ps1.len() > 0 {
        assert(ps1[0].0 == ps2[0].0) by {
            assert(pairs_fields(ps1)[0] == pairs_fields(ps2)[0]);
        }
        let r1 = ps1.subrange(1, ps1.len() as int);
        let r2 = ps2.subrange(1, ps2.len() as int);
        assert(pairs_fields(r1) =~= pairs_fields(r2)) by {
            assert forall|i: int| 0 <= i < r1.len()
                implies (#[trigger] pairs_fields(r1)[i]) == pairs_fields(r2)[i] by {
                assert(r1[i] == ps1[i + 1]);
                assert(r2[i] == ps2[i + 1]);
                assert(pairs_fields(ps1)[i + 1] == pairs_fields(ps2)[i + 1]);
            }
        }
        lemma_not_root_fields_indep(r1, r2, r);
        let nr1 = not_root(r1, r);
        let nr2 = not_root(r2, r);
        assert(pairs_fields(nr1).len() == nr1.len());
        assert(pairs_fields(nr2).len() == nr2.len());
        if ps1[0].0.name.contains('.') && root_of(ps1[0].0.name) == r {
            assert(not_root(ps1, r) == Seq::<(GField, GVal)>::empty() + nr1);
            assert(not_root(ps2, r) == Seq::<(GField, GVal)>::empty() + nr2);
            assert(not_root(ps1, r) =~= nr1);
            assert(not_root(ps2, r) =~= nr2);
        } else {
            assert(not_root(ps1, r) == seq![ps1[0]] + nr1);
            assert(not_root(ps2, r) == seq![ps2[0]] + nr2);
            assert(pairs_fields(not_root(ps1, r)) =~= pairs_fields(not_root(ps2, r))) by {
                assert forall|i: int| 0 <= i < not_root(ps1, r).len()
                    implies (#[trigger] pairs_fields(not_root(ps1, r))[i])
                        == pairs_fields(not_root(ps2, r))[i] by {
                    if i == 0 {
                        assert(not_root(ps1, r)[0] == ps1[0]);
                        assert(not_root(ps2, r)[0] == ps2[0]);
                    } else {
                        assert(not_root(ps1, r)[i] == nr1[i - 1]);
                        assert(not_root(ps2, r)[i] == nr2[i - 1]);
                        assert(pairs_fields(nr1)[i - 1] == pairs_fields(nr2)[i - 1]);
                    }
                }
            }
        }
    } else {
        assert(pairs_fields(not_root(ps1, r)) =~= pairs_fields(not_root(ps2, r)));
    }
}

} // verus!

verus! {

/// The ghost view of a paired column list.
pub open spec fn pview(ps: Seq<(Field, JsonVal)>) -> Seq<(GField, GVal)> {
    Seq::new(ps.len(), |i: int| (ps[i].0@, gval_of(ps[i].1)))
}

/// The position of the first dot of `s`, or its length.
pub(crate) fn find_dot(s: &str) -> (r: usize)
    ensures
        r == first_dot(s@),
        r <= s@.len(),
{
    proof {
        lemma_first_dot(s@);
    }
    let len = s.unicode_len();
    let mut i: usize = 0;
    while i < len
        invariant
            len == s@.len(),
            i <= len,
            forall|k: int| 0 <= k < i ==> s@[k] != '.',
        decreases len - i,
    {
        if s.get_char(i) == '.' {
            proof {
                lemma_first_dot(s@);
                assert(s@.contains('.'));
                if first_dot(s@) < i {
                    assert(s@[first_dot(s@)] == '.');
                    assert(false);
                }
                if first_dot(s@) > i {
                    assert(s@[i as int] != '.');
                    assert(false);
                }
            }
            return i;
        }
        i = i + 1;
    }
    proof {
        lemma_first_dot(s@);
        if s@.contains('.') {
            assert(s@[first_dot(s@)] == '.');
        }
    }
    len
}

/// Unflatten a paired column list: the exec mirror of `unflat`.
pub(crate) fn unflat_pairs(ps: Vec<(Field, JsonVal)>) -> (out: Vec<(Field, JsonVal)>)
    ensures
        pview(out@) == unflat(pview(ps@)),
    decreases psize(pview(ps@)), ps@.len(),
{
    let ghost gp = pview(ps@);
    let mut out: Vec<(Field, JsonVal)> = Vec::new();
    if ps.len() == 0 {
        proof {
            assert(pview(out@) =~= unflat(gp));
        }
        return out;
    }
    let dotted = crate::text::has_char(ps[0].0.name.as_str(), '.');
    proof {
        assert(gp[0] == (ps@[0].0@, gval_of(ps@[0].1)));
    }
    if !dotted {
        let mut rest: Vec<(Field, JsonVal)> = Vec::new();
        let mut i: usize = 1;
        while i < ps.len()
            invariant
                gp == pview(ps@),
                gp.len() == ps@.len(),
                1 <= i <= ps@.len(),
                rest@.len() == i - 1,
                forall|k: int| 0 <= k < i - 1
                    ==> (#[trigger] pview(rest@)[k]) == gp[k + 1],
            decreases ps@.len() - i,
        {
            let ghost before = rest@;
            rest.push((ps[i].0.clone(), ps[i].1.clone()));
            proof {
                assert forall|k: int| 0 <= k < rest@.len()
                    implies (#[trigger] pview(rest@)[k]) == gp[k + 1] by {
                    if k < before.len() {
                        assert(rest@[k] == before[k]);
                        assert(pview(before)[k] == gp[k + 1]);
                    } else {
                        assert(rest@[k] == rest@.last());
                        assert(rest@[k].0@ == ps@[i as int].0@);
                        assert(gval_of(rest@[k].1) == gval_of(ps@[i as int].1));
                        assert(gp[i as int] == (ps@[i as int].0@, gval_of(ps@[i as int].1)));
                    }
                }
            }
            i = i + 1;
        }
        proof {
            assert(pview(rest@) =~= gp.subrange(1, gp.len() as int));
            assert(psize(gp) == gp[0].0.name.len() + psize(gp.subrange(1, gp.len() as int)));
        }
        let sub = unflat_pairs(rest);
        let mut first = ps;
        let head = first.remove(0);
        out.push(head);
        let mut i: usize = 0;
        let ghost gsub = pview(sub@);
        while i < sub.len()
            invariant
                gsub == pview(sub@),
                gsub.len() == sub@.len(),
                0 < gp.len(),
                !gp[0].0.name.contains('.'),
                gsub == unflat(gp.subrange(1, gp.len() as int)),
                i <= sub@.len(),
                out@.len() == i + 1,
                pview(out@)[0] == gp[0],
                forall|k: int| 1 <= k < out@.len() ==> (#[trigger] pview(out@)[k]) == gsub[k - 1],
            decreases sub@.len() - i,
        {
            let ghost before = out@;
            out.push((sub[i].0.clone(), sub[i].1.clone()));
            proof {
                assert forall|k: int| 1 <= k < out@.len()
                    implies (#[trigger] pview(out@)[k]) == gsub[k - 1] by {
                    if k < before.len() {
                        assert(out@[k] == before[k]);
                        assert(pview(before)[k] == gsub[k - 1]);
                    } else {
                        assert(out@[k] == out@.last());
                        assert(out@[k].0@ == sub@[i as int].0@);
                        assert(gval_of(out@[k].1) == gval_of(sub@[i as int].1));
                        assert(gsub[i as int] == (sub@[i as int].0@, gval_of(sub@[i as int].1)));
                    }
                }
                assert(out@[0] == before[0]);
                assert(pview(out@)[0] == pview(before)[0]);
            }
            i = i + 1;
        }
        proof {
            assert(pview(out@) =~= seq![gp[0]] + unflat(gp.subrange(1, gp.len() as int)));
        }
        out
    } else {
        let nd = find_dot(ps[0].0.name.as_str());
        let name_len = ps[0].0.name.as_str().unicode_len();
        let root: String = String::from_str(ps[0].0.name.as_str().substring_char(0, nd));
        let ghost gr = root_of(gp[0].0.name);
        proof {
            assert(root@ == gr);
        }
        let mut grp: Vec<(Field, JsonVal)> = Vec::new();
        let mut rest2: Vec<(Field, JsonVal)> = Vec::new();
        let mut i: usize = 0;
        proof {
            assert(gp.subrange(0, 0) =~= Seq::<(GField, GVal)>::empty());
            assert(pview(grp@) =~= Seq::<(GField, GVal)>::empty());
            assert(grp_local(gp.subrange(0, 0), gr) =~= Seq::<(GField, GVal)>::empty());
            assert(gp.subrange(1, 1) =~= Seq::<(GField, GVal)>::empty());
            assert(pview(rest2@) =~= Seq::<(GField, GVal)>::empty());
            assert(not_root(gp.subrange(1, 1), gr) =~= Seq::<(GField, GVal)>::empty());
        }
        while i < ps.len()
            invariant
                gp == pview(ps@),
                gp.len() == ps@.len(),
                0 < gp.len(),
                gr == root_of(gp[0].0.name),
                root@ == gr,
                i <= ps@.len(),
                pview(grp@) == grp_local(gp.subrange(0, i as int), gr),
                i >= 1 ==> pview(rest2@) == not_root(gp.subrange(1, i as int), gr),
                i == 0 ==> rest2@.len() == 0,
            decreases ps@.len() - i,
        {
            let ghost pre = gp.subrange(0, i as int);
            let ghost one = seq![gp[i as int]];
            proof {
                lemma_grp_local_append(pre, one, gr);
                assert(pre + one =~= gp.subrange(0, i as int + 1));
                assert(one.subrange(1, 1) =~= Seq::<(GField, GVal)>::empty());
                assert(grp_local(one.subrange(1, 1), gr) =~= Seq::<(GField, GVal)>::empty());
                if i >= 1 {
                    let pre1 = gp.subrange(1, i as int);
                    lemma_not_root_append(pre1, one, gr);
                    assert(pre1 + one =~= gp.subrange(1, i as int + 1));
                    assert(not_root(one.subrange(1, 1), gr) =~= Seq::<(GField, GVal)>::empty());
                }
            }
            let nm_dotted = crate::text::has_char(ps[i].0.name.as_str(), '.');
            let mut is_member = false;
            if nm_dotted {
                let ndi = find_dot(ps[i].0.name.as_str());
                let rooti = ps[i].0.name.as_str().substring_char(0, ndi);
                if crate::text::str_eq(rooti, root.as_str()) {
                    is_member = true;
                    let nli = ps[i].0.name.as_str().unicode_len();
                    proof {
                        lemma_first_dot(ps@[i as int].0.name@);
                        assert(ps@[i as int].0.name@.contains('.'));
                        assert(ndi < nli);
                    }
                    let local: String = String::from_str(
                        ps[i].0.name.as_str().substring_char(ndi + 1, nli),
                    );
                    proof {
                        assert(local@ == local_of(gp[i as int].0.name));
                    }
                    let ghost gb = pview(grp@);
                    grp.push((Field { name: local, ty: ps[i].0.ty.clone() }, ps[i].1.clone()));
                    proof {
                        assert(pview(grp@) =~= gb + seq![
                            (GField {
                                name: local_of(gp[i as int].0.name),
                                ty: gp[i as int].0.ty,
                            }, gp[i as int].1),
                        ]);
                        assert(pview(grp@) =~= grp_local(gp.subrange(0, i as int + 1), gr));
                    }
                }
            }
            if !is_member {
                proof {
                    assert(!(gp[i as int].0.name.contains('.')
                        && root_of(gp[i as int].0.name) == gr)) by {
                        if gp[i as int].0.name.contains('.') {
                            assert(ps@[i as int].0.name@.contains('.'));
                        }
                    }
                    assert(pview(grp@) =~= grp_local(gp.subrange(0, i as int + 1), gr));
                }
                if i >= 1 {
                    let ghost rb = pview(rest2@);
                    rest2.push((ps[i].0.clone(), ps[i].1.clone()));
                    proof {
                        assert(pview(rest2@) =~= rb + seq![gp[i as int]]);
                        assert(pview(rest2@) =~= not_root(gp.subrange(1, i as int + 1), gr));
                    }
                }
            } else {
                proof {
                    if i >= 1 {
                        assert(pview(rest2@) =~= not_root(gp.subrange(1, i as int + 1), gr));
                    }
                }
            }
            proof {
                if i == 0 {
                    assert(gp.subrange(1, 1) =~= Seq::<(GField, GVal)>::empty());
                    assert(pview(rest2@) =~= not_root(gp.subrange(1, 1), gr));
                }
            }
            i = i + 1;
        }
        proof {
            assert(gp.subrange(0, gp.len() as int) =~= gp);
            assert(gp.subrange(1, gp.len() as int) =~= gp.subrange(1, gp.len() as int));
            lemma_first_dot(gp[0].0.name);
            lemma_grp_psize(gp, gr);
            assert(grp_local(gp, gr)[0] == (GField {
                name: local_of(gp[0].0.name),
                ty: gp[0].0.ty,
            }, gp[0].1));
            lemma_not_root_psize(gp.subrange(1, gp.len() as int), gr);
            assert(psize(gp) == gp[0].0.name.len() + psize(gp.subrange(1, gp.len() as int)));
        }
        let sub = unflat_pairs(grp);
        let ghost gsub = pview(sub@);
        let mut sub_fields: Vec<Field> = Vec::new();
        let mut sub_pairs_vec: Vec<(String, JsonVal)> = Vec::new();
        let mut k: usize = 0;
        while k < sub.len()
            invariant
                gsub == pview(sub@),
                gsub.len() == sub@.len(),
                k <= sub@.len(),
                sub_fields@.len() == k,
                sub_pairs_vec@.len() == k,
                forall|q: int| 0 <= q < k
                    ==> (#[trigger] sub_fields@[q])@ == gsub[q].0,
                forall|q: int| 0 <= q < k
                    ==> (#[trigger] sub_pairs_vec@[q]).0@ == gsub[q].0.name
                        && gval_of(sub_pairs_vec@[q].1) == gsub[q].1,
            decreases sub@.len() - k,
        {
            sub_fields.push(sub[k].0.clone());
            sub_pairs_vec.push((sub[k].0.name.clone(), sub[k].1.clone()));
            k = k + 1;
        }
        let head_field = Field { name: root, ty: ColType::Struct(sub_fields) };
        let head_val = JsonVal::Obj(sub_pairs_vec);
        proof {
            crate::json::lemma_gfields_of(sub_fields@);
            assert(gfields_of(sub_fields@) =~= pairs_fields(gsub));
            crate::json::lemma_gpairs_of(sub_pairs_vec@);
            assert(gpairs_of(sub_pairs_vec@) =~= pairs_obj(gsub));
        }
        let sub2 = unflat_pairs(rest2);
        let ghost gsub2 = pview(sub2@);
        proof {
            assert(gsub == unflat(grp_local(gp, gr)));
            assert(gsub2 == unflat(not_root(gp.subrange(1, gp.len() as int), gr)));
        }
        out.push((head_field, head_val));
        let mut k: usize = 0;
        while k < sub2.len()
            invariant
                gsub2 == pview(sub2@),
                gsub2.len() == sub2@.len(),
                0 < gp.len(),
                gp[0].0.name.contains('.'),
                gr == root_of(gp[0].0.name),
                gsub == unflat(grp_local(gp, gr)),
                gsub2 == unflat(not_root(gp.subrange(1, gp.len() as int), gr)),
                k <= sub2@.len(),
                out@.len() == k + 1,
                pview(out@)[0] == (GField {
                    name: gr,
                    ty: GTy::Struct(pairs_fields(gsub)),
                }, GVal::Obj(pairs_obj(gsub))),
                forall|q: int| 1 <= q < out@.len()
                    ==> (#[trigger] pview(out@)[q]) == gsub2[q - 1],
            decreases sub2@.len() - k,
        {
            let ghost before = out@;
            out.push((sub2[k].0.clone(), sub2[k].1.clone()));
            proof {
                assert forall|q: int| 1 <= q < out@.len()
                    implies (#[trigger] pview(out@)[q]) == gsub2[q - 1] by {
                    if q < before.len() {
                        assert(out@[q] == before[q]);
                        assert(pview(before)[q] == gsub2[q - 1]);
                    } else {
                        assert(out@[q] == out@.last());
                        assert(out@[q].0@ == sub2@[k as int].0@);
                        assert(gval_of(out@[q].1) == gval_of(sub2@[k as int].1));
                        assert(gsub2[k as int]
                            == (sub2@[k as int].0@, gval_of(sub2@[k as int].1)));
                    }
                }
                assert(out@[0] == before[0]);
                assert(pview(out@)[0] == pview(before)[0]);
            }
            k = k + 1;
        }
        proof {
            assert(pview(out@) =~= seq![
                (GField { name: gr, ty: GTy::Struct(pairs_fields(gsub)) },
                    GVal::Obj(pairs_obj(gsub))),
            ] + gsub2);
        }
        out
    }
}

} // verus!

verus! {

/// Flattening a record with no struct columns keeps its schema and rows:
/// on such a schema `flatten` is the identity, hence idempotent.
pub proof fn lemma_flatten_no_structs(prefix: Seq<char>, fs: Seq<GField>, rows: Seq<Seq<GVal>>)
    requires
        prefix == Seq::<char>::empty(),
        forall|i: int| 0 <= i < fs.len() ==> !((#[trigger] fs[i]).ty matches GTy::Struct(_)),
        forall|i: int| 0 <= i < rows.len() ==> (#[trigger] rows[i]).len() == fs.len(),
    ensures
        flatten_ok(fs),
        flat_fields(prefix, fs) == fs,
        forall|i: int| 0 <= i < rows.len() ==> flat_row(fs, #[trigger] rows[i]) == rows[i],
{
    lemma_flat_no_structs_rec(prefix, fs);
    assert forall|i: int| 0 <= i < rows.len()
        implies flat_row(fs, #[trigger] rows[i]) == rows[i] by {
        lemma_flat_row_no_structs(fs, rows[i]);
    }
}

/// On a struct-free field list, flattening with the empty prefix keeps
/// the fields.
proof fn lemma_flat_no_structs_rec(prefix: Seq<char>, fs: Seq<GField>)
    requires
        prefix == Seq::<char>::empty(),
        forall|i: int| 0 <= i < fs.len() ==> !((#[trigger] fs[i]).ty matches GTy::Struct(_)),
    ensures
        flatten_ok(fs),
        flat_fields(prefix, fs) == fs,
    decreases fs,
{
    if fs.len() == 0 {
        assert(flat_fields(prefix, fs) =~= fs);
    } else {
        let rest = fs.subrange(1, fs.len() as int);
        assert(forall|i: int| 0 <= i < rest.len() ==> #[trigger] rest[i] == fs[i + 1]);
        lemma_flat_no_structs_rec(prefix, rest);
        lemma_gfs_size_elem(fs, 0);
        assert(prefix + fs[0].name =~= fs[0].name);
        assert(flat_field(prefix, fs[0]) == seq![GField { name: fs[0].name, ty: fs[0].ty }]);
        assert(GField { name: fs[0].name, ty: fs[0].ty } == fs[0]);
        assert(flat_fields(prefix, fs) =~= fs);
    }
}

/// On a struct-free field list, flattening keeps a row of matching
/// length.
proof fn lemma_flat_row_no_structs(fs: Seq<GField>, row: Seq<GVal>)
    requires
        forall|i: int| 0 <= i < fs.len() ==> !((#[trigger] fs[i]).ty matches GTy::Struct(_)),
        row.len() == fs.len(),
    ensures
        flat_row(fs, row) == row,
    decreases fs,
{
    if fs.len() == 0 {
        assert(flat_row(fs, row) =~= row);
    } else {
        let restf = fs.subrange(1, fs.len() as int);
        let restr = row.subrange(1, row.len() as int);
        assert(forall|i: int| 0 <= i < restf.len() ==> #[trigger] restf[i] == fs[i + 1]);
        lemma_flat_row_no_structs(restf, restr);
        lemma_gfs_size_elem(fs, 0);
        assert(flat_cell(fs[0], row[0]) == seq![row[0]]);
        assert(flat_row(fs, row) =~= row);
    }
}

} // verus!

verus! {

/// On columns whose names are all dot-free, unflattening changes
/// nothing.
pub proof fn lemma_unflat_dot_free(ps: Seq<(GField, GVal)>)
    requires
        forall|i: int| 0 <= i < ps.len() ==> !(#[trigger] ps[i]).0.name.contains('.'),
    ensures
        unflat(ps) == ps,
    decreases ps,
{
    if ps.len() > 0 {
        let rest = ps.subrange(1, ps.len() as int);
        assert(forall|i: int| 0 <= i < rest.len() ==> #[trigger] rest[i] == ps[i + 1]);
        assert(psize(ps) == ps[0].0.name.len() + psize(rest));
        lemma_unflat_dot_free(rest);
        assert(unflat(ps) =~= ps);
    } else {
        assert(unflat(ps) =~= ps);
    }
}

} // verus!

verus! {

/// The first dot of a clean name joined to a tail is the joint itself.
proof fn lemma_first_dot_joint(n: Seq<char>, t: Seq<char>)
    requires
        !n.contains('.'),
    ensures
        first_dot(n + seq!['.'] + t) == n.len(),
        root_of(n + seq!['.'] + t) == n,
        local_of(n + seq!['.'] + t) == t,
        (n + seq!['.'] + t).contains('.'),
    decreases n.len(),
{
    let w = n + seq!['.'] + t;
    assert(w[n.len() as int] == '.');
    assert(w.contains('.'));
    if n.len() == 0 {
        assert(w[0] == '.');
        assert(first_dot(w) == 0);
    } else {
        assert(w[0] == n[0]);
        assert(n[0] != '.') by {
            if n[0] == '.' {
                assert(n.contains('.'));
            }
        }
        let n1 = n.subrange(1, n.len() as int);
        assert(!n1.contains('.')) by {
            if n1.contains('.') {
                let i = choose|i: int| 0 <= i < n1.len() && n1[i] == '.';
                assert(n[i + 1] == '.');
                assert(n.contains('.'));
            }
        }
        lemma_first_dot_joint(n1, t);
        assert(w.subrange(1, w.len() as int) =~= n1 + seq!['.'] + t);
        assert(first_dot(w) == 1 + first_dot(n1 + seq!['.'] + t));
    }
    assert(root_of(w) =~= n);
    assert(local_of(w) =~= t);
}

/// The fields with `p` joined in front of each name.
pub open spec fn add_prefix(p: Seq<char>, fs: Seq<GField>) -> Seq<GField> {
    Seq::new(fs.len(), |i: int| GField { name: p + fs[i].name, ty: fs[i].ty })
}

/// Flattening under a prefix is flattening under none with the prefix
/// joined onto every name.
proof fn lemma_flat_fields_prefix(p: Seq<char>, fs: Seq<GField>)
    ensures
        flat_fields(p, fs) == add_prefix(p, flat_fields(Seq::<char>::empty(), fs)),
    decreases gfs_size(fs),
{
    let e = Seq::<char>::empty();
    if fs.len() == 0 {
        assert(flat_fields(p, fs) =~= add_prefix(p, flat_fields(e, fs)));
    } else {
        lemma_gfs_size_elem(fs, 0);
        let rest = fs.subrange(1, fs.len() as int);
        lemma_flat_fields_prefix(p, rest);
        lemma_flat_fields_prefix(e, rest);
        lemma_flat_field_prefix(p, fs[0]);
        lemma_flat_field_prefix(e, fs[0]);
        assert(flat_fields(p, fs) =~= add_prefix(p, flat_fields(e, fs))) by {
            assert(flat_fields(p, fs)
                == flat_field(p, fs[0]) + flat_fields(p, rest));
            assert(flat_fields(e, fs)
                == flat_field(e, fs[0]) + flat_fields(e, rest));
            assert forall|i: int| 0 <= i < flat_fields(p, fs).len()
                implies #[trigger] flat_fields(p, fs)[i]
                    == add_prefix(p, flat_fields(e, fs))[i] by {
                let hl = flat_field(p, fs[0]).len();
                assert(flat_field(e, fs[0]).len() == hl) by {
                    assert(add_prefix(p, flat_field(e, fs[0])).len()
                        == flat_field(e, fs[0]).len());
                }
                if i < hl {
                    assert(flat_fields(p, fs)[i] == flat_field(p, fs[0])[i]);
                    assert(flat_field(p, fs[0])[i]
                        == add_prefix(p, flat_field(e, fs[0]))[i]);
                    assert(flat_fields(e, fs)[i] == flat_field(e, fs[0])[i]);
                } else {
                    assert(flat_fields(p, fs)[i] == flat_fields(p, rest)[i - hl]);
                    assert(flat_fields(e, fs)[i] == flat_fields(e, rest)[i - hl]);
                    assert(flat_fields(p, rest)[i - hl]
                        == add_prefix(p, flat_fields(e, rest))[i - hl]);
                }
            }
        }
    }
}

/// Flattening one field under a prefix joins the prefix onto each
/// resulting name.
proof fn lemma_flat_field_prefix(p: Seq<char>, f: GField)
    ensures
        flat_field(p, f) == add_prefix(p, flat_field(Seq::<char>::empty(), f)),
    decreases gty_size(f.ty),
{
    let e = Seq::<char>::empty();
    match f.ty {
        GTy::Struct(subs) => {
            lemma_flat_fields_prefix(p + f.name + seq!['.'], subs);
            lemma_flat_fields_prefix(e + f.name + seq!['.'], subs);
            let base = flat_fields(e, subs);
            assert(flat_field(p, f) == add_prefix(p + f.name + seq!['.'], base));
            assert(flat_field(e, f) == add_prefix(e + f.name + seq!['.'], base));
            assert(flat_field(p, f) =~= add_prefix(p, flat_field(e, f))) by {
                assert forall|i: int| 0 <= i < base.len()
                    implies #[trigger] add_prefix(p + f.name + seq!['.'], base)[i]
                        == add_prefix(p, add_prefix(e + f.name + seq!['.'], base))[i] by {
                    assert((p + f.name + seq!['.']) + base[i].name
                        =~= p + ((e + f.name + seq!['.']) + base[i].name));
                }
            }
        },
        _ => {
            assert(e + f.name =~= f.name);
            assert(flat_field(p, f) =~= add_prefix(p, flat_field(e, f)));
        },
    }
}

} // verus!

verus! {

/// Top-level field names are pairwise distinct.
pub open spec fn names_distinct(fs: Seq<GField>) -> bool {
    forall|i: int, j: int| 0 <= i < j < fs.len()
        ==> (#[trigger] fs[i]).name != (#[trigger] fs[j]).name
}

/// Inside every struct field, names are distinct, recursively.
pub open spec fn subs_unique(fs: Seq<GField>) -> bool
    decreases gfs_size(fs),
{
    if fs.len() == 0 {
        true
    } else {
        proof {
            lemma_gfs_size_elem(fs, 0);
        }
        (match fs[0].ty {
            GTy::Struct(subs) => names_distinct(subs) && subs_unique(subs),
            _ => true,
        }) && subs_unique(fs.subrange(1, fs.len() as int))
    }
}

/// What `deep_clean` and `subs_unique` say of each field.
proof fn lemma_deep_props_elem(fs: Seq<GField>, i: int)
    requires
        deep_clean(fs),
        subs_unique(fs),
        0 <= i < fs.len(),
    ensures
        !fs[i].name.contains('.'),
        (match fs[i].ty {
            GTy::Struct(subs) => deep_clean(subs) && names_distinct(subs) && subs_unique(subs),
            _ => true,
        }),
    decreases fs,
{
    lemma_gfs_size_elem(fs, 0);
    if i > 0 {
        lemma_deep_props_elem(fs.subrange(1, fs.len() as int), i - 1);
    }
}

/// The pairs of `B` with `n` and a dot joined in front of each name.
pub open spec fn joint_pairs(n: Seq<char>, b: Seq<(GField, GVal)>) -> Seq<(GField, GVal)> {
    Seq::new(b.len(), |i: int| (GField { name: n + seq!['.'] + b[i].0.name, ty: b[i].0.ty },
        b[i].1))
}

/// The group of a fully `n`-prefixed block is the block itself, and none
/// of it survives outside the group.
proof fn lemma_grp_of_joint(n: Seq<char>, b: Seq<(GField, GVal)>)
    requires
        !n.contains('.'),
    ensures
        grp_local(joint_pairs(n, b), n) == b,
        not_root(joint_pairs(n, b), n) == Seq::<(GField, GVal)>::empty(),
    decreases b,
{
    let z = joint_pairs(n, b);
    if b.len() == 0 {
        assert(z =~= Seq::<(GField, GVal)>::empty());
        assert(grp_local(z, n) =~= b);
        assert(not_root(z, n) =~= Seq::<(GField, GVal)>::empty());
    } else {
        lemma_first_dot_joint(n, b[0].0.name);
        let brest = b.subrange(1, b.len() as int);
        lemma_grp_of_joint(n, brest);
        assert(z.subrange(1, z.len() as int) =~= joint_pairs(n, brest));
        assert(z[0].0.name == n + seq!['.'] + b[0].0.name);
        assert(z[0].0.name.contains('.') && root_of(z[0].0.name) == n);
        assert(local_of(z[0].0.name) == b[0].0.name);
        assert(grp_local(z, n)
            == seq![(GField { name: local_of(z[0].0.name), ty: z[0].0.ty }, z[0].1)]
                + grp_local(joint_pairs(n, brest), n));
        assert((GField { name: local_of(z[0].0.name), ty: z[0].0.ty }, z[0].1) == b[0]);
        assert(grp_local(z, n) =~= b);
        assert(not_root(z, n)
            == Seq::<(GField, GVal)>::empty() + not_root(joint_pairs(n, brest), n));
        assert(not_root(z, n) =~= Seq::<(GField, GVal)>::empty());
    }
}

/// A list with no column of root `n` groups to nothing and survives
/// whole.
proof fn lemma_grp_none(z: Seq<(GField, GVal)>, n: Seq<char>)
    requires
        forall|i: int| 0 <= i < z.len()
            ==> !((#[trigger] z[i]).0.name.contains('.') && root_of(z[i].0.name) == n),
    ensures
        grp_local(z, n) == Seq::<(GField, GVal)>::empty(),
        not_root(z, n) == z,
    decreases z,
{
    if z.len() > 0 {
        let rest = z.subrange(1, z.len() as int);
        assert(forall|i: int| 0 <= i < rest.len() ==> #[trigger] rest[i] == z[i + 1]);
        lemma_grp_none(rest, n);
        assert(grp_local(z, n) =~= Seq::<(GField, GVal)>::empty());
        assert(not_root(z, n) =~= z);
    } else {
        assert(grp_local(z, n) =~= Seq::<(GField, GVal)>::empty());
        assert(not_root(z, n) =~= z);
    }
}

/// Every dotted name among the flattened columns of `fs` has the name of
/// one of `fs`'s struct fields as its root.
proof fn lemma_flat_roots(fs: Seq<GField>, row: Seq<GVal>)
    requires
        deep_clean(fs),
        row.len() == fs.len(),
        forall|j: int| 0 <= j < row.len() ==> g_has_ty(#[trigger] row[j], fs[j].ty),
    ensures
        forall|i: int| 0 <= i
            < row_pairs(flat_fields(Seq::<char>::empty(), fs), flat_row(fs, row)).len()
            ==> ((#[trigger] row_pairs(flat_fields(Seq::<char>::empty(), fs),
                flat_row(fs, row))[i]).0.name.contains('.')
                ==> exists|j: int| 0 <= j < fs.len()
                    && ((#[trigger] fs[j]).ty matches GTy::Struct(_))
                    && root_of(row_pairs(flat_fields(Seq::<char>::empty(), fs),
                        flat_row(fs, row))[i].0.name) == fs[j].name),
    decreases gfs_size(fs),
{
    let e = Seq::<char>::empty();
    if fs.len() == 0 {
    } else {
        lemma_gfs_size_elem(fs, 0);
        let rest = fs.subrange(1, fs.len() as int);
        let rrow = row.subrange(1, row.len() as int);
        assert(forall|i: int| 0 <= i < rest.len()
            ==> #[trigger] rest[i] == fs[i + 1] && rrow[i] == row[i + 1]);
        assert(deep_clean(rest)) by {
            lemma_deep_clean_append(seq![fs[0]], rest);
            assert(seq![fs[0]] + rest =~= fs);
        }
        lemma_flat_roots(rest, rrow);
        lemma_flat_conforms(e, fs, row);
        lemma_flat_conforms(e, rest, rrow);
        let z = row_pairs(flat_fields(e, fs), flat_row(fs, row));
        let zrest = row_pairs(flat_fields(e, rest), flat_row(rest, rrow));
        let hf = flat_field(e, fs[0]);
        let hc = flat_cell(fs[0], row[0]);
        lemma_flat_cell_conforms(e, fs[0], row[0]);
        assert(flat_fields(e, fs) == hf + flat_fields(e, rest));
        assert(flat_row(fs, row) == hc + flat_row(rest, rrow));
        lemma_deep_clean_one(fs[0]);
        assert(deep_clean(seq![fs[0]])) by {
            lemma_deep_clean_append(seq![fs[0]], rest);
            assert(seq![fs[0]] + rest =~= fs);
        }
        assert forall|i: int| 0 <= i < z.len()
            implies ((#[trigger] z[i]).0.name.contains('.')
                ==> exists|j: int| 0 <= j < fs.len()
                    && ((#[trigger] fs[j]).ty matches GTy::Struct(_))
                    && root_of(z[i].0.name) == fs[j].name) by {
            if i < hf.len() {
                assert(z[i].0 == hf[i]);
                match fs[0].ty {
                    GTy::Struct(subs) => {
                        lemma_flat_fields_prefix(e + fs[0].name + seq!['.'], subs);
                        let base = flat_fields(e, subs);
                        assert(hf == add_prefix(e + fs[0].name + seq!['.'], base));
                        assert(hf[i].name == (e + fs[0].name + seq!['.']) + base[i].name);
                        assert(hf[i].name =~= fs[0].name + seq!['.'] + base[i].name);
                        lemma_first_dot_joint(fs[0].name, base[i].name);
                        assert(root_of(z[i].0.name) == fs[0].name);
                        assert(0 <= 0 < fs.len() && ((#[trigger] fs[0]).ty matches GTy::Struct(_))
                            && root_of(z[i].0.name) == fs[0].name);
                    },
                    _ => {
                        assert(hf == seq![GField { name: e + fs[0].name, ty: fs[0].ty }]);
                        assert(z[i].0.name =~= fs[0].name);
                        assert(!fs[0].name.contains('.'));
                        if z[i].0.name.contains('.') {
                            assert(false);
                        }
                    },
                }
            } else {
                assert(z[i].0 == flat_fields(e, rest)[i - hf.len()]);
                assert(z[i].0 == zrest[i - hf.len()].0);
                if z[i].0.name.contains('.') {
                    let j = choose|j: int| 0 <= j < rest.len()
                        && ((#[trigger] rest[j]).ty matches GTy::Struct(_))
                        && root_of(zrest[i - hf.len()].0.name) == rest[j].name;
                    assert(fs[j + 1].ty matches GTy::Struct(_));
                    assert(root_of(z[i].0.name) == fs[j + 1].name);
                }
            }
        }
    }
}

} // verus!

verus! {

/// Every struct field, at every level, has at least one field inside:
/// an empty struct column would vanish when flattened.
pub open spec fn structs_nonempty(fs: Seq<GField>) -> bool
    decreases gfs_size(fs),
{
    if fs.len() == 0 {
        true
    } else {
        proof {
            lemma_gfs_size_elem(fs, 0);
        }
        (match fs[0].ty {
            GTy::Struct(subs) => subs.len() > 0 && structs_nonempty(subs),
            _ => true,
        }) && structs_nonempty(fs.subrange(1, fs.len() as int))
    }
}

/// What `structs_nonempty` says of each field.
proof fn lemma_structs_nonempty_elem(fs: Seq<GField>, i: int)
    requires
        structs_nonempty(fs),
        0 <= i < fs.len(),
    ensures
        (match fs[i].ty {
            GTy::Struct(subs) => subs.len() > 0 && structs_nonempty(subs),
            _ => true,
        }),
    decreases fs,
{
    lemma_gfs_size_elem(fs, 0);
    if i > 0 {
        lemma_structs_nonempty_elem(fs.subrange(1, fs.len() as int), i - 1);
    }
}

/// Unflattening a flattened record restores its columns, when every
/// name is dot-free, names are unique at every level, and no struct is
/// empty.
pub proof fn lemma_unflat_flat(fs: Seq<GField>, row: Seq<GVal>)
    requires
        deep_clean(fs),
        names_distinct(fs),
        subs_unique(fs),
        structs_nonempty(fs),
        row.len() == fs.len(),
        forall|j: int| 0 <= j < row.len() ==> g_has_ty(#[trigger] row[j], fs[j].ty),
    ensures
        unflat(row_pairs(flat_fields(Seq::<char>::empty(), fs), flat_row(fs, row)))
            == row_pairs(fs, row),
    decreases gfs_size(fs),
{
    let e = Seq::<char>::empty();
    let z = row_pairs(flat_fields(e, fs), flat_row(fs, row));
    lemma_flat_conforms(e, fs, row);
    if fs.len() == 0 {
        assert(z =~= Seq::<(GField, GVal)>::empty());
        assert(unflat(z) =~= row_pairs(fs, row));
    } else {
        lemma_gfs_size_elem(fs, 0);
        let rest = fs.subrange(1, fs.len() as int);
        let rrow = row.subrange(1, row.len() as int);
        assert(forall|i: int| 0 <= i < rest.len()
            ==> #[trigger] rest[i] == fs[i + 1] && rrow[i] == row[i + 1]);
        assert(deep_clean(rest) && deep_clean(seq![fs[0]])) by {
            lemma_deep_clean_append(seq![fs[0]], rest);
            assert(seq![fs[0]] + rest =~= fs);
        }
        lemma_deep_clean_one(fs[0]);
        lemma_deep_props_elem(fs, 0);
        lemma_structs_nonempty_elem(fs, 0);
        assert(subs_unique(rest) && structs_nonempty(rest));
        lemma_unflat_flat(rest, rrow);
        let zrest = row_pairs(flat_fields(e, rest), flat_row(rest, rrow));
        let hf = flat_field(e, fs[0]);
        let hc = flat_cell(fs[0], row[0]);
        lemma_flat_cell_conforms(e, fs[0], row[0]);
        lemma_flat_conforms(e, rest, rrow);
        assert(flat_fields(e, fs) == hf + flat_fields(e, rest));
        assert(flat_row(fs, row) == hc + flat_row(rest, rrow));
        let hz = row_pairs(hf, hc);
        assert(z =~= hz + zrest) by {
            assert forall|i: int| 0 <= i < z.len()
                implies #[trigger] z[i] == (hz + zrest)[i] by {
                if i < hf.len() {
                    assert(z[i] == (flat_fields(e, fs)[i], flat_row(fs, row)[i]));
                    assert(flat_fields(e, fs)[i] == hf[i]);
                    assert(flat_row(fs, row)[i] == hc[i]);
                } else {
                    assert(flat_fields(e, fs)[i] == flat_fields(e, rest)[i - hf.len()]);
                    assert(flat_row(fs, row)[i] == flat_row(rest, rrow)[i - hf.len()]);
                }
            }
        }
        match fs[0].ty {
            GTy::Struct(subs) => {
                let nm = fs[0].name;
                let vals = obj_vals(row[0]);
                lemma_row_from_obj_pub(row[0], subs);
                lemma_flat_fields_prefix(e + nm + seq!['.'], subs);
                let base = flat_fields(e, subs);
                assert(hf == add_prefix(e + nm + seq!['.'], base));
                assert(hc == flat_row(subs, vals));
                let b0 = row_pairs(base, hc);
                lemma_flat_conforms(e, subs, vals);
                assert(hz =~= joint_pairs(nm, b0)) by {
                    assert forall|i: int| 0 <= i < hz.len()
                        implies #[trigger] hz[i] == joint_pairs(nm, b0)[i] by {
                        assert(hz[i] == (hf[i], hc[i]));
                        assert(hf[i].name == (e + nm + seq!['.']) + base[i].name);
                        assert(hf[i].name =~= nm + seq!['.'] + base[i].name);
                        assert(hf[i].ty == base[i].ty);
                        assert(joint_pairs(nm, b0)[i]
                            == (GField { name: nm + seq!['.'] + b0[i].0.name, ty: b0[i].0.ty },
                                b0[i].1));
                        assert(b0[i] == (base[i], hc[i]));
                        assert(hz[i].0 =~= joint_pairs(nm, b0)[i].0);
                    }
                }
                assert(subs.len() > 0);
                assert(base.len() > 0) by {
                    lemma_flat_conforms(e, subs, vals);
                    if base.len() == 0 {
                        lemma_gfs_size_elem(subs, 0);
                        assert(flat_fields(e, subs)
                            == flat_field(e, subs[0])
                                + flat_fields(e, subs.subrange(1, subs.len() as int)));
                        lemma_structs_nonempty_elem(subs, 0);
                        lemma_flat_field_nonempty(e, subs[0]);
                        assert(false);
                    }
                }
                assert(z.len() > 0);
                assert(z[0] == hz[0]);
                lemma_first_dot_joint(nm, b0[0].0.name);
                assert(z[0].0.name.contains('.'));
                assert(root_of(z[0].0.name) == nm);
                // the group collects the whole prefixed block and nothing else
                lemma_grp_local_append(hz, zrest, nm);
                lemma_grp_of_joint(nm, b0);
                lemma_flat_roots(rest, rrow);
                assert forall|i: int| 0 <= i < zrest.len()
                    implies !((#[trigger] zrest[i]).0.name.contains('.')
                        && root_of(zrest[i].0.name) == nm) by {
                    if zrest[i].0.name.contains('.') {
                        let j = choose|j: int| 0 <= j < rest.len()
                            && ((#[trigger] rest[j]).ty matches GTy::Struct(_))
                            && root_of(zrest[i].0.name) == rest[j].name;
                        assert(fs[j + 1].name != nm);
                    }
                }
                lemma_grp_none(zrest, nm);
                assert(grp_local(z, nm) == b0) by {
                    assert(grp_local(z, nm) == grp_local(hz, nm) + grp_local(zrest, nm));
                    assert(grp_local(hz, nm) == b0);
                    assert(b0 + Seq::<(GField, GVal)>::empty() =~= b0);
                }
                // outside the group, only the trailing columns remain
                let ztail = z.subrange(1, z.len() as int);
                let hztail = hz.subrange(1, hz.len() as int);
                assert(ztail =~= hztail + zrest);
                lemma_not_root_append(hztail, zrest, nm);
                assert(hztail =~= joint_pairs(nm, b0.subrange(1, b0.len() as int)));
                lemma_grp_of_joint(nm, b0.subrange(1, b0.len() as int));
                assert(not_root(ztail, nm)
                    == Seq::<(GField, GVal)>::empty() + not_root(zrest, nm));
                assert(not_root(ztail, nm) =~= zrest);
                // the sub-columns unflatten back by induction
                assert(names_distinct(subs) && subs_unique(subs) && deep_clean(subs)
                    && structs_nonempty(subs));
                lemma_unflat_flat(subs, vals);
                assert(unflat(b0) == row_pairs(subs, vals));
                // the head column is the original struct column
                let sub = unflat(grp_local(z, nm));
                assert(sub == row_pairs(subs, vals));
                assert(pairs_fields(sub) =~= subs);
                let head = (GField { name: nm, ty: GTy::Struct(pairs_fields(sub)) },
                    GVal::Obj(pairs_obj(sub)));
                assert(head.0 =~= fs[0]);
                match row[0] {
                    GVal::Obj(kvs) => {
                        lemma_g_obj_ty(kvs, subs);
                        assert(pairs_obj(sub) =~= kvs) by {
                            assert forall|i: int| 0 <= i < kvs.len()
                                implies #[trigger] pairs_obj(sub)[i] == kvs[i] by {
                                assert(pairs_obj(sub)[i] == (sub[i].0.name, sub[i].1));
                                assert(sub[i] == (subs[i], vals[i]));
                                assert(kvs[i].0 == subs[i].name);
                                assert(obj_vals(row[0])[i] == kvs[i].1);
                            }
                        }
                        assert(head.1 =~= row[0]);
                    },
                    _ => {
                        assert(false);
                    },
                }
                assert(unflat(z) == seq![head] + unflat(not_root(ztail, nm)));
                assert(unflat(not_root(ztail, nm)) == row_pairs(rest, rrow));
                assert(unflat(z) =~= row_pairs(fs, row)) by {
                    assert(head == (fs[0], row[0]));
                    assert forall|i: int| 0 <= i < row_pairs(fs, row).len()
                        implies #[trigger] unflat(z)[i] == row_pairs(fs, row)[i] by {
                        if i == 0 {
                            assert(unflat(z)[0] == head);
                        } else {
                            assert(unflat(z)[i] == row_pairs(rest, rrow)[i - 1]);
                            assert(row_pairs(rest, rrow)[i - 1] == (rest[i - 1], rrow[i - 1]));
                        }
                    }
                }
            },
            _ => {
                assert(hf == seq![GField { name: e + fs[0].name, ty: fs[0].ty }]);
                assert(hc == seq![row[0]]);
                assert(hz.len() == 1);
                assert(hz[0].0 =~= fs[0]);
                assert(hz[0].1 == row[0]);
                assert(z[0] == hz[0]);
                assert(!z[0].0.name.contains('.'));
                let ztail = z.subrange(1, z.len() as int);
                assert(ztail =~= zrest);
                assert(psize(z) == z[0].0.name.len() + psize(ztail));
                assert(unflat(z) == seq![z[0]] + unflat(ztail));
                assert(unflat(z) =~= row_pairs(fs, row)) by {
                    assert forall|i: int| 0 <= i < row_pairs(fs, row).len()
                        implies #[trigger] unflat(z)[i] == row_pairs(fs, row)[i] by {
                        if i == 0 {
                            assert(unflat(z)[0] == (fs[0], row[0]));
                        } else {
                            assert(unflat(z)[i] == unflat(zrest)[i - 1]);
                            assert(row_pairs(rest, rrow)[i - 1] == (rest[i - 1], rrow[i - 1]));
                        }
                    }
                }
            },
        }
    }
}

/// A field whose structs are non-empty all the way down flattens to at
/// least one column.
proof fn lemma_flat_field_nonempty(p: Seq<char>, f: GField)
    requires
        (match f.ty {
            GTy::Struct(subs) => subs.len() > 0 && structs_nonempty(subs),
            _ => true,
        }),
    ensures
        flat_field(p, f).len() > 0,
    decreases gty_size(f.ty),
{
    match f.ty {
        GTy::Struct(subs) => {
            lemma_gfs_size_elem(subs, 0);
            lemma_structs_nonempty_elem(subs, 0);
            lemma_flat_field_nonempty(p + f.name + seq!['.'], subs[0]);
            assert(flat_fields(p + f.name + seq!['.'], subs)
                == flat_field(p + f.name + seq!['.'], subs[0])
                    + flat_fields(p + f.name + seq!['.'],
                        subs.subrange(1, subs.len() as int)));
        },
        _ => {},
    }
}

} // verus!

verus! {

/// Dot-free names everywhere make flattening succeed.
proof fn lemma_deep_clean_flatten_ok(fs: Seq<GField>)
    requires
        deep_clean(fs),
    ensures
        flatten_ok(fs),
    decreases gfs_size(fs),
{
    if fs.len() > 0 {
        lemma_gfs_size_elem(fs, 0);
        lemma_deep_clean_flatten_ok(fs.subrange(1, fs.len() as int));
    }
}

/// A conforming cell for each type: null for leaves, a full object for
/// structs.
spec fn default_cell(t: GTy) -> GVal
    decreases gty_size(t),
{
    match t {
        GTy::Struct(subs) => {
            let vs = default_cells(subs);
            GVal::Obj(Seq::new(subs.len(), |i: int| (subs[i].name, vs[i])))
        },
        _ => GVal::Null,
    }
}

/// A conforming row for a field list.
spec fn default_cells(fs: Seq<GField>) -> Seq<GVal>
    decreases gfs_size(fs),
{
    if fs.len() == 0 {
        Seq::empty()
    } else {
        proof {
            lemma_gfs_size_elem(fs, 0);
        }
        seq![default_cell(fs[0].ty)] + default_cells(fs.subrange(1, fs.len() as int))
    }
}

/// The default row conforms to its field list.
proof fn lemma_default_cells_conform(fs: Seq<GField>)
    ensures
        default_cells(fs).len() == fs.len(),
        forall|j: int| 0 <= j < fs.len()
            ==> g_has_ty(#[trigger] default_cells(fs)[j], fs[j].ty),
    decreases gfs_size(fs),
{
    if fs.len() > 0 {
        lemma_gfs_size_elem(fs, 0);
        let rest = fs.subrange(1, fs.len() as int);
        lemma_default_cells_conform(rest);
        lemma_default_cell_conform(fs[0].ty);
        assert forall|j: int| 0 <= j < fs.len()
            implies g_has_ty(#[trigger] default_cells(fs)[j], fs[j].ty) by {
            if j == 0 {
                assert(default_cells(fs)[0] == default_cell(fs[0].ty));
            } else {
                assert(default_cells(fs)[j] == default_cells(rest)[j - 1]);
                assert(rest[j - 1] == fs[j]);
            }
        }
    }
}

/// The default cell conforms to its type.
proof fn lemma_default_cell_conform(t: GTy)
    ensures
        g_has_ty(default_cell(t), t),
    decreases gty_size(t),
{
    match t {
        GTy::Struct(subs) => {
            lemma_default_cells_conform(subs);
            let vs = default_cells(subs);
            let kvs = Seq::new(subs.len(), |i: int| (subs[i].name, vs[i]));
            lemma_g_obj_ty(kvs, subs);
        },
        _ => {},
    }
}

/// Round-trip law: on a record whose field names are dot-free and unique
/// at every level, with no empty struct, unflattening the flattened form
/// restores the schema and every row; metadata is untouched by both
/// operations.
pub proof fn lemma_unflatten_flatten_record(rv: crate::record::RecordView)
    requires
        rv.wf(),
        deep_clean(rv.schema),
        names_distinct(rv.schema),
        subs_unique(rv.schema),
        structs_nonempty(rv.schema),
    ensures
        flatten_ok(rv.schema),
        unflat_schema(flat_fields(Seq::<char>::empty(), rv.schema)) == rv.schema,
        forall|i: int| 0 <= i < rv.rows.len()
            ==> pairs_vals(unflat(row_pairs(
                flat_fields(Seq::<char>::empty(), rv.schema),
                flat_row(rv.schema, #[trigger] rv.rows[i]),
            ))) == rv.rows[i],
{
    let e = Seq::<char>::empty();
    let fs = rv.schema;
    lemma_deep_clean_flatten_ok(fs);
    // the schema round-trips, shown through a conforming synthetic row
    lemma_default_cells_conform(fs);
    let drow = default_cells(fs);
    lemma_unflat_flat(fs, drow);
    lemma_flat_conforms(e, fs, drow);
    let dz = row_pairs(flat_fields(e, fs), flat_row(fs, drow));
    let sz = schema_pairs(flat_fields(e, fs));
    assert(pairs_fields(dz) =~= flat_fields(e, fs));
    assert(pairs_fields(sz) =~= flat_fields(e, fs));
    lemma_unflat_fields_indep(sz, dz);
    assert(pairs_fields(unflat(dz)) =~= fs) by {
        assert(unflat(dz) == row_pairs(fs, drow));
    }
    assert(unflat_schema(flat_fields(e, fs)) =~= fs);
    // every stored row round-trips
    assert forall|i: int| 0 <= i < rv.rows.len()
        implies pairs_vals(unflat(row_pairs(
            flat_fields(e, fs),
            flat_row(fs, #[trigger] rv.rows[i]),
        ))) == rv.rows[i] by {
        assert(crate::record::row_ok(rv.rows[i], fs));
        lemma_unflat_flat(fs, rv.rows[i]);
        assert(pairs_vals(row_pairs(fs, rv.rows[i])) =~= rv.rows[i]);
    }
}

} // verus!

verus! {

/// Round-trip law, other direction: flattening, unflattening and
/// flattening again gives exactly the flattened form, for any record
/// whose field names are dot-free and unique at every level, with no
/// empty struct.
pub proof fn lemma_flatten_unflatten_flatten_record(rv: crate::record::RecordView)
    requires
        rv.wf(),
        deep_clean(rv.schema),
        names_distinct(rv.schema),
        subs_unique(rv.schema),
        structs_nonempty(rv.schema),
    ensures
        flat_fields(
            Seq::<char>::empty(),
            unflat_schema(flat_fields(Seq::<char>::empty(), rv.schema)),
        ) == flat_fields(Seq::<char>::empty(), rv.schema),
        forall|i: int| 0 <= i < rv.rows.len()
            ==> flat_row(
                unflat_schema(flat_fields(Seq::<char>::empty(), rv.schema)),
                pairs_vals(unflat(row_pairs(
                    flat_fields(Seq::<char>::empty(), rv.schema),
                    flat_row(rv.schema, #[trigger] rv.rows[i]),
                ))),
            ) == flat_row(rv.schema, rv.rows[i]),
{
    lemma_unflatten_flatten_record(rv);
}

} // verus!
