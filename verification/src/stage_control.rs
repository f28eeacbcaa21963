//! The stage-controller pattern: map an observed stage to a desired set
//! of task names and reconcile it against the tasks already spawned,
//! emitting spawn and kill commands for the difference.

use vstd::prelude::*;
use crate::info::TaskInfo;
use crate::json::{GVal, JsonVal, gpairs_of, lemma_gpairs_of};
use crate::record::Record;
use crate::text::str_eq;

verus! {

broadcast use vstd::std_specs::vec::group_vec_axioms, vstd::seq::group_seq_axioms;

/// The first value stored under key `name` in an object's pairs.
pub open spec fn gobj_get(kvs: Seq<(Seq<char>, GVal)>, name: Seq<char>) -> Option<GVal>
    decreases kvs,
{
    if kvs.len() == 0 {
        None
    } else if kvs[0].0 == name {
        Some(kvs[0].1)
    } else {
        gobj_get(kvs.subrange(1, kvs.len() as int), name)
    }
}

/// Lookup at the first matching index.
proof fn lemma_gobj_get_at(kvs: Seq<(Seq<char>, GVal)>, j: int, name: Seq<char>)
    requires
        0 <= j < kvs.len(),
        kvs[j].0 == name,
        forall|i: int| 0 <= i < j ==> (#[trigger] kvs[i]).0 != name,
    ensures
        gobj_get(kvs, name) == Some(kvs[j].1),
    decreases kvs,
{
    if j > 0 {
        lemma_gobj_get_at(kvs.subrange(1, kvs.len() as int), j - 1, name);
    }
}

/// Lookup misses when no pair has the key.
proof fn lemma_gobj_get_none(kvs: Seq<(Seq<char>, GVal)>, name: Seq<char>)
    requires
        forall|i: int| 0 <= i < kvs.len() ==> (#[trigger] kvs[i]).0 != name,
    ensures
        gobj_get(kvs, name) is None,
    decreases kvs,
{
    if kvs.len() > 0 {
        lemma_gobj_get_none(kvs.subrange(1, kvs.len() as int), name);
    }
}

/// The first field of an object value stored under `name`, if any.
pub fn obj_field<'a>(v: &'a JsonVal, name: &str) -> (r: Option<&'a JsonVal>)
    ensures
        (match v@ {
            GVal::Obj(g) => match r {
                Some(x) => gobj_get(g, name@) == Some(x@),
                None => gobj_get(g, name@) is None,
            },
            _ => r is None,
        }),
{
    match v {
        JsonVal::Obj(kvs) => {
            proof {
                lemma_gpairs_of(kvs@);
            }
            let ghost g = gpairs_of(kvs@);
            let mut j: usize = 0;
            while j < kvs.len()
                invariant
                    v@ == GVal::Obj(g),
                    g == gpairs_of(kvs@),
                    g.len() == kvs@.len(),
                    forall|k: int| 0 <= k < kvs@.len()
                        ==> g[k] == (kvs@[k].0@, gval_of_at(kvs@, k)),
                    j <= kvs@.len(),
                    forall|k: int| 0 <= k < j ==> (#[trigger] g[k]).0 != name@,
                decreases kvs@.len() - j,
            {
                if str_eq(kvs[j].0.as_str(), name) {
                    proof {
                        lemma_gobj_get_at(g, j as int, name@);
                    }
                    return Some(&kvs[j].1);
                }
                j = j + 1;
            }
            proof {
                lemma_gobj_get_none(g, name@);
            }
            None
        },
        _ => None,
    }
}

/// The ghost value of the pair at `k`.
pub open spec fn gval_of_at(kvs: Seq<(String, JsonVal)>, k: int) -> GVal {
    crate::json::gval_of(kvs[k].1)
}

/// The text stored under a row object's first `stage` field, if any.
pub open spec fn stage_text_of_row(v: GVal) -> Option<Seq<char>> {
    match v {
        GVal::Obj(g) => match gobj_get(g, "stage"@) {
            Some(GVal::Text(t)) => Some(t),
            _ => None,
        },
        _ => None,
    }
}

/// The stage texts of a list of row objects, in order: rows without a
/// text `stage` field contribute nothing.
pub open spec fn stage_texts_vals(objs: Seq<GVal>) -> Seq<Seq<char>>
    decreases objs.len(),
{
    if objs.len() == 0 {
        Seq::<Seq<char>>::empty()
    } else {
        stage_texts_vals(objs.drop_last()) + (match stage_text_of_row(objs.last()) {
            Some(t) => seq![t],
            None => Seq::<Seq<char>>::empty(),
        })
    }
}

/// The object each row of a record decodes to, in row order.
pub open spec fn row_objs(rv: crate::record::RecordView) -> Seq<GVal> {
    Seq::new(rv.rows.len(), |i: int| crate::record::row_obj(rv.schema, rv.rows[i]))
}

/// Each text found under a `stage` field of a row object of the record,
/// in row order; rows without a text `stage` field contribute nothing.
pub(crate) fn stage_texts(rec: &Record) -> (r: Vec<String>)
    requires
        rec@.wf(),
    ensures
        names_view(r@) == stage_texts_vals(row_objs(rec@)),
{
    let mut out: Vec<String> = Vec::new();
    let rows = match rec.to_values() {
        Ok(v) => v,
        Err(_) => {
            proof {
                assert(row_objs(rec@) =~= Seq::<GVal>::empty());
                assert(names_view(out@) =~= Seq::<Seq<char>>::empty());
            }
            return out;
        },
    };
    let ghost objs = row_objs(rec@);
    proof {
        assert(names_view(out@) =~= Seq::<Seq<char>>::empty());
        assert(objs.subrange(0, 0) =~= Seq::<GVal>::empty());
    }
    let mut i: usize = 0;
    while i < rows.len()
        invariant
            rows@.len() == objs.len(),
            objs == row_objs(rec@),
            forall|k: int| 0 <= k < rows@.len()
                ==> crate::json::gval_of(#[trigger] rows@[k]) == objs[k],
            i <= rows@.len(),
            names_view(out@) == stage_texts_vals(objs.subrange(0, i as int)),
        decreases rows@.len() - i,
    {
        let ghost gi = i as int;
        let ghost pre = objs.subrange(0, gi);
        proof {
            assert(objs.subrange(0, gi + 1).drop_last() =~= pre);
            assert(objs.subrange(0, gi + 1).last() == objs[gi]);
            assert(objs[gi] == crate::record::row_obj(rec@.schema, rec@.rows[gi]));
        }
        match obj_field(&rows[i], "stage") {
            Some(fv) => {
                match fv {
                    JsonVal::Text(s) => {
                        let ghost ob = out@;
                        out.push(s.clone());
                        proof {
                            assert(stage_text_of_row(objs[gi]) == Some(s@));
                            assert(names_view(out@) =~= names_view(ob).push(s@));
                            assert(names_view(out@)
                                =~= stage_texts_vals(objs.subrange(0, gi + 1)));
                        }
                    },
                    _ => {
                        proof {
                            match fv {
                                JsonVal::Null => {
                                    assert(stage_text_of_row(objs[gi]) is None);
                                },
                                JsonVal::Bool(_) => {
                                    assert(stage_text_of_row(objs[gi]) is None);
                                },
                                JsonVal::Int(_) => {
                                    assert(stage_text_of_row(objs[gi]) is None);
                                },
                                JsonVal::Real(_) => {
                                    assert(stage_text_of_row(objs[gi]) is None);
                                },
                                JsonVal::Text(_) => {
                                    assert(false);
                                },
                                JsonVal::Arr(_) => {
                                    assert(stage_text_of_row(objs[gi]) is None);
                                },
                                JsonVal::Obj(_) => {
                                    assert(stage_text_of_row(objs[gi]) is None);
                                },
                            }
                            assert(names_view(out@)
                                =~= stage_texts_vals(objs.subrange(0, gi + 1)));
                        }
                    },
                }
            },
            None => {
                proof {
                    assert(stage_text_of_row(objs[gi]) is None);
                    assert(names_view(out@) =~= stage_texts_vals(objs.subrange(0, gi + 1)));
                }
            },
        }
        i = i + 1;
    }
    proof {
        assert(objs.subrange(0, objs.len() as int) =~= objs);
    }
    out
}

/// The name views of a list of strings.
pub open spec fn names_view(s: Seq<String>) -> Seq<Seq<char>> {
    Seq::new(s.len(), |i: int| s[i]@)
}

/// The `(name, id)` views of a list of task identities.
pub open spec fn info_pairs(s: Seq<TaskInfo>) -> Seq<(Seq<char>, u32)> {
    Seq::new(s.len(), |i: int| (s[i].name@, s[i].id))
}

/// The names of `want` that are absent from `have`, in order.
pub open spec fn missing_names(want: Seq<Seq<char>>, have: Seq<Seq<char>>) -> Seq<Seq<char>>
    decreases want,
{
    if want.len() == 0 {
        Seq::empty()
    } else {
        (if have.contains(want[0]) {
            Seq::empty()
        } else {
            seq![want[0]]
        }) + missing_names(want.subrange(1, want.len() as int), have)
    }
}

/// The `(name, id)` pairs of `have` whose names are absent from `want`,
/// in order.
pub open spec fn stale_pairs(have: Seq<(Seq<char>, u32)>, want: Seq<Seq<char>>) -> Seq<
    (Seq<char>, u32),
>
    decreases have,
{
    if have.len() == 0 {
        Seq::empty()
    } else {
        (if want.contains(have[0].0) {
            Seq::empty()
        } else {
            seq![have[0]]
        }) + stale_pairs(have.subrange(1, have.len() as int), want)
    }
}

/// `missing_names` distributes over concatenation of the scanned list.
proof fn lemma_missing_names_append(a: Seq<Seq<char>>, b: Seq<Seq<char>>, have: Seq<Seq<char>>)
    ensures
        missing_names(a + b, have) == missing_names(a, have) + missing_names(b, have),
    decreases a,
{
    if a.len() == 0 {
        assert(a + b =~= b);
        assert(missing_names(a, have) + missing_names(b, have) =~= missing_names(b, have));
    } else {
        lemma_missing_names_append(a.subrange(1, a.len() as int), b, have);
        assert((a + b).subrange(1, (a + b).len() as int) =~= a.subrange(1, a.len() as int) + b);
        assert((a + b)[0] == a[0]);
        if have.contains(a[0]) {
            assert(missing_names(a + b, have)
                =~= missing_names(a, have) + missing_names(b, have));
        } else {
            assert(seq![a[0]] + (missing_names(a.subrange(1, a.len() as int), have)
                + missing_names(b, have))
                =~= (seq![a[0]] + missing_names(a.subrange(1, a.len() as int), have))
                    + missing_names(b, have));
        }
    }
}

/// `stale_pairs` distributes over concatenation of the scanned list.
proof fn lemma_stale_pairs_append(
    a: Seq<(Seq<char>, u32)>,
    b: Seq<(Seq<char>, u32)>,
    want: Seq<Seq<char>>,
)
    ensures
        stale_pairs(a + b, want) == stale_pairs(a, want) + stale_pairs(b, want),
    decreases a,
{
    if a.len() == 0 {
        assert(a + b =~= b);
        assert(stale_pairs(a, want) + stale_pairs(b, want) =~= stale_pairs(b, want));
    } else {
        lemma_stale_pairs_append(a.subrange(1, a.len() as int), b, want);
        assert((a + b).subrange(1, (a + b).len() as int) =~= a.subrange(1, a.len() as int) + b);
        assert((a + b)[0] == a[0]);
        if want.contains(a[0].0) {
            assert(stale_pairs(a + b, want) =~= stale_pairs(a, want) + stale_pairs(b, want));
        } else {
            assert(seq![a[0]] + (stale_pairs(a.subrange(1, a.len() as int), want)
                + stale_pairs(b, want))
                =~= (seq![a[0]] + stale_pairs(a.subrange(1, a.len() as int), want))
                    + stale_pairs(b, want));
        }
    }
}

/// Whether any string in the list holds these characters.
pub(crate) fn names_contain(names: &Vec<String>, needle: &str) -> (r: bool)
    ensures
        r == names_view(names@).contains(needle@),
{
    let mut i: usize = 0;
    while i < names.len()
        invariant
            i <= names@.len(),
            forall|k: int| 0 <= k < i ==> (#[trigger] names@[k])@ != needle@,
        decreases names@.len() - i,
    {
        if str_eq(names[i].as_str(), needle) {
            proof {
                assert(names_view(names@)[i as int] == needle@);
            }
            return true;
        }
        i = i + 1;
    }
    proof {
        assert forall|k: int| 0 <= k < names_view(names@).len()
            implies #[trigger] names_view(names@)[k] != needle@ by {
            assert(names@[k]@ != needle@);
        }
    }
    false
}

/// Whether any identity in the list carries this name.
fn infos_contain_name(infos: &Vec<TaskInfo>, needle: &str) -> (r: bool)
    ensures
        r == (exists|k: int| 0 <= k < infos@.len()
            && (#[trigger] infos@[k]).name@ == needle@),
{
    let mut i: usize = 0;
    while i < infos.len()
        invariant
            i <= infos@.len(),
            forall|k: int| 0 <= k < i ==> (#[trigger] infos@[k]).name@ != needle@,
        decreases infos@.len() - i,
    {
        if str_eq(infos[i].name.as_str(), needle) {
            return true;
        }
        i = i + 1;
    }
    false
}

/// Split the difference between the desired task names and the tasks a
/// controller has spawned: the names to spawn are exactly the desired
/// names not yet spawned, and the identities to kill are exactly the
/// spawned ones no longer desired, each in their original order.
pub fn reconcile_tasks(desired: &Vec<String>, spawned: &Vec<TaskInfo>) -> (r: (
    Vec<String>,
    Vec<TaskInfo>,
))
    ensures
        names_view(r.0@) == missing_names(names_view(desired@), info_pairs_names(spawned@)),
        info_pairs(r.1@) == stale_pairs(info_pairs(spawned@), names_view(desired@)),
{
    let ghost want = names_view(desired@);
    let ghost have = info_pairs(spawned@);
    let mut to_spawn: Vec<String> = Vec::new();
    let mut i: usize = 0;
    proof {
        assert(want.subrange(0, 0) =~= Seq::<Seq<char>>::empty());
        assert(names_view(to_spawn@) =~= Seq::<Seq<char>>::empty());
        assert(missing_names(want.subrange(0, 0), info_pairs_names(spawned@))
            =~= Seq::<Seq<char>>::empty());
    }
    while i < desired.len()
        invariant
            want == names_view(desired@),
            want.len() == desired@.len(),
            i <= desired@.len(),
            names_view(to_spawn@)
                == missing_names(want.subrange(0, i as int), info_pairs_names(spawned@)),
        decreases desired@.len() - i,
    {
        let ghost pre = want.subrange(0, i as int);
        proof {
            lemma_missing_names_append(pre, seq![want[i as int]], info_pairs_names(spawned@));
            assert(pre + seq![want[i as int]] =~= want.subrange(0, i as int + 1));
            assert(seq![want[i as int]].subrange(1, 1) =~= Seq::<Seq<char>>::empty());
            assert(missing_names(Seq::<Seq<char>>::empty(), info_pairs_names(spawned@))
                == Seq::<Seq<char>>::empty());
        }
        let present = infos_contain_name(spawned, desired[i].as_str());
        proof {
            assert(info_pairs_names(spawned@).contains(want[i as int]) == present) by {
                if present {
                    let k = choose|k: int| 0 <= k < spawned@.len()
                        && (#[trigger] spawned@[k]).name@ == desired@[i as int]@;
                    assert(info_pairs_names(spawned@)[k] == want[i as int]);
                } else {
                    if info_pairs_names(spawned@).contains(want[i as int]) {
                        let k = choose|k: int| 0 <= k < info_pairs_names(spawned@).len()
                            && info_pairs_names(spawned@)[k] == want[i as int];
                        assert(spawned@[k].name@ == desired@[i as int]@);
                    }
                }
            }
        }
        if !present {
            let ghost before = to_spawn@;
            to_spawn.push(desired[i].clone());
            proof {
                assert(names_view(to_spawn@) =~= names_view(before) + seq![want[i as int]]);
            }
        }
        proof {
            assert(names_view(to_spawn@)
                =~= missing_names(want.subrange(0, i as int + 1), info_pairs_names(spawned@)));
        }
        i = i + 1;
    }
    let mut to_kill: Vec<TaskInfo> = Vec::new();
    let mut j: usize = 0;
    proof {
        assert(have.subrange(0, 0) =~= Seq::<(Seq<char>, u32)>::empty());
        assert(info_pairs(to_kill@) =~= Seq::<(Seq<char>, u32)>::empty());
        assert(stale_pairs(have.subrange(0, 0), want) =~= Seq::<(Seq<char>, u32)>::empty());
    }
    while j < spawned.len()
        invariant
            want == names_view(desired@),
            have == info_pairs(spawned@),
            have.len() == spawned@.len(),
            j <= spawned@.len(),
            info_pairs(to_kill@) == stale_pairs(have.subrange(0, j as int), want),
        decreases spawned@.len() - j,
    {
        let ghost pre = have.subrange(0, j as int);
        proof {
            lemma_stale_pairs_append(pre, seq![have[j as int]], want);
            assert(pre + seq![have[j as int]] =~= have.subrange(0, j as int + 1));
            assert(seq![have[j as int]].subrange(1, 1) =~= Seq::<(Seq<char>, u32)>::empty());
            assert(stale_pairs(Seq::<(Seq<char>, u32)>::empty(), want)
                == Seq::<(Seq<char>, u32)>::empty());
        }
        let wanted = names_contain(desired, spawned[j].name.as_str());
        proof {
            assert(want.contains(have[j as int].0) == wanted) by {
                if wanted {
                    let k = choose|k: int| 0 <= k < names_view(desired@).len()
                        && #[trigger] names_view(desired@)[k] == spawned@[j as int].name@;
                    assert(want[k] == have[j as int].0);
                } else {
                    if want.contains(have[j as int].0) {
                        let k = choose|k: int| 0 <= k < want.len()
                            && want[k] == have[j as int].0;
                        assert(names_view(desired@)[k] == spawned@[j as int].name@);
                    }
                }
            }
        }
        if !wanted {
            let ghost before = to_kill@;
            to_kill.push(spawned[j].clone());
            proof {
                assert(info_pairs(to_kill@) =~= info_pairs(before) + seq![have[j as int]]);
            }
        }
        proof {
            assert(info_pairs(to_kill@) =~= stale_pairs(have.subrange(0, j as int + 1), want));
        }
        j = j + 1;
    }
    proof {
        assert(want.subrange(0, want.len() as int) =~= want);
        assert(have.subrange(0, have.len() as int) =~= have);
    }
    (to_spawn, to_kill)
}

/// The names of a list of task identities.
pub open spec fn info_pairs_names(s: Seq<TaskInfo>) -> Seq<Seq<char>> {
    Seq::new(s.len(), |i: int| s[i].name@)
}

} // verus!

verus! {

/// A copy of a list of names holding the same characters.
pub fn clone_names(v: &Vec<String>) -> (r: Vec<String>)
    ensures
        names_view(r@) == names_view(v@),
{
    let mut out: Vec<String> = Vec::new();
    let mut i: usize = 0;
    while i < v.len()
        invariant
            i <= v@.len(),
            out@.len() == i,
            forall|k: int| 0 <= k < i ==> (#[trigger] out@[k])@ == v@[k]@,
        decreases v@.len() - i,
    {
        out.push(v[i].clone());
        i = i + 1;
    }
    proof {
        assert(names_view(out@) =~= names_view(v@));
    }
    out
}

/// The `(name, id)` pairs with the first entry carrying `id` dropped.
pub open spec fn remove_first_id_pairs(s: Seq<(Seq<char>, u32)>, id: u32) -> Seq<
    (Seq<char>, u32),
>
    decreases s.len(),
{
    if s.len() == 0 {
        s
    } else if s[0].1 == id {
        s.subrange(1, s.len() as int)
    } else {
        seq![s[0]] + remove_first_id_pairs(s.subrange(1, s.len() as int), id)
    }
}

/// Without a matching id the list is left as it is.
proof fn lemma_remove_first_id_pairs_none(s: Seq<(Seq<char>, u32)>, id: u32)
    requires
        forall|k: int| 0 <= k < s.len() ==> (#[trigger] s[k]).1 != id,
    ensures
        remove_first_id_pairs(s, id) == s,
    decreases s.len(),
{
    if s.len() > 0 {
        let rest = s.subrange(1, s.len() as int);
        lemma_remove_first_id_pairs_none(rest, id);
        assert(seq![s[0]] + rest =~= s);
    }
}

/// With a first match at `j`, exactly that entry is dropped.
proof fn lemma_remove_first_id_pairs_at(s: Seq<(Seq<char>, u32)>, j: int, id: u32)
    requires
        0 <= j < s.len(),
        s[j].1 == id,
        forall|k: int| 0 <= k < j ==> (#[trigger] s[k]).1 != id,
    ensures
        remove_first_id_pairs(s, id) == s.remove(j),
    decreases j,
{
    if j == 0 {
        assert(remove_first_id_pairs(s, id) == s.subrange(1, s.len() as int));
        assert(s.subrange(1, s.len() as int) =~= s.remove(0));
    } else {
        let rest = s.subrange(1, s.len() as int);
        assert(rest[j - 1].1 == id);
        assert forall|k: int| 0 <= k < j - 1 implies (#[trigger] rest[k]).1 != id by {
            assert(rest[k] == s[k + 1]);
        }
        lemma_remove_first_id_pairs_at(rest, j - 1, id);
        assert(seq![s[0]] + rest.remove(j - 1) =~= s.remove(j));
    }
}

/// The spawned pairs after a round of kills, each dropping the first
/// entry carrying its id, in order.
pub open spec fn kill_fold(
    s: Seq<(Seq<char>, u32)>,
    kills: Seq<(Seq<char>, u32)>,
) -> Seq<(Seq<char>, u32)>
    decreases kills.len(),
{
    if kills.len() == 0 {
        s
    } else {
        remove_first_id_pairs(kill_fold(s, kills.drop_last()), kills.last().1)
    }
}

/// The `(name, id)` pairs of freshly spawned task identities: each name
/// with its stable hash.
pub open spec fn spawn_pairs(names: Seq<Seq<char>>) -> Seq<(Seq<char>, u32)> {
    Seq::new(names.len(), |i: int| (names[i], crate::info::name_hash(names[i])))
}

/// Drop the first identity carrying this id, if any: without a match the
/// list is unchanged, else exactly the first matching entry is removed.
pub(crate) fn remove_info_by_id(v: &mut Vec<TaskInfo>, id: u32)
    ensures
        (forall|k: int| 0 <= k < old(v)@.len() ==> (#[trigger] old(v)@[k]).id != id)
            ==> final(v)@ == old(v)@,
        forall|j: int| 0 <= j < old(v)@.len() && (#[trigger] old(v)@[j]).id == id
            && (forall|k: int| 0 <= k < j ==> (#[trigger] old(v)@[k]).id != id)
            ==> final(v)@ == old(v)@.remove(j),
        info_pairs(final(v)@) == remove_first_id_pairs(info_pairs(old(v)@), id),
{
    let mut i: usize = 0;
    while i < v.len()
        invariant
            i <= v@.len(),
            v@ == old(v)@,
            forall|k: int| 0 <= k < i ==> (#[trigger] v@[k]).id != id,
        decreases v@.len() - i,
    {
        if v[i].id == id {
            let ghost gi = i as int;
            v.remove(i);
            proof {
                assert forall|j: int| 0 <= j < old(v)@.len() && (#[trigger] old(v)@[j]).id == id
                    && (forall|k: int| 0 <= k < j ==> (#[trigger] old(v)@[k]).id != id)
                    implies v@ == old(v)@.remove(j) by {
                    if j < gi {
                        assert(old(v)@[j].id != id);
                    } else if j > gi {
                        assert(old(v)@[gi].id != id);
                    }
                }
                assert forall|k: int| 0 <= k < gi
                    implies (#[trigger] info_pairs(old(v)@)[k]).1 != id by {
                    assert(old(v)@[k].id != id);
                }
                assert(info_pairs(old(v)@)[gi].1 == id);
                lemma_remove_first_id_pairs_at(info_pairs(old(v)@), gi, id);
                assert(info_pairs(v@) =~= info_pairs(old(v)@).remove(gi));
            }
            return;
        }
        i = i + 1;
    }
    proof {
        assert forall|k: int| 0 <= k < info_pairs(old(v)@).len()
            implies (#[trigger] info_pairs(old(v)@)[k]).1 != id by {
            assert(old(v)@[k].id != id);
        }
        lemma_remove_first_id_pairs_none(info_pairs(old(v)@), id);
    }
}

} // verus!
