//! The consumer-side catalogue of packages: one entry per id, with the
//! package's lifecycle state and the selection flags the presentation
//! layer reads.

use vstd::prelude::*;
use vstd::string::StrSliceExecFns;
use vstd::string::StringExecFns;

use crate::diff::{DiffEvent, ids_view};
use crate::package::{Package, PackageV};

verus! {

/// The lifecycle state of a package on the device.
#[derive(PartialEq, Eq, Structural, Clone, Copy, Debug)]
pub enum State {
    Enabled,
    Uninstalled,
    Disabled,
}

/// One row of the catalogue.
pub struct Entry {
    pub package: Package,
    pub expand_triggered: bool,
    pub state: State,
    pub selected: bool,
}

/// The mathematical value of an `Entry`.
pub struct EntryV {
    pub package: PackageV,
    pub expand_triggered: bool,
    pub state: State,
    pub selected: bool,
}

impl View for Entry {
    type V = EntryV;

    open spec fn view(&self) -> EntryV {
        EntryV {
            package: self.package@,
            expand_triggered: self.expand_triggered,
            state: self.state,
            selected: self.selected,
        }
    }
}

/// The value sequence of an entry vector.
pub open spec fn entries_view(v: Seq<Entry>) -> Seq<EntryV> {
    v.map_values(|e: Entry| e@)
}

/// The row a freshly listed package opens with: enabled, collapsed,
/// unselected.
pub open spec fn fresh_entry(p: PackageV) -> EntryV {
    EntryV { package: p, expand_triggered: false, state: State::Enabled, selected: false }
}

impl Entry {
    /// Open a row for a freshly listed package.
    pub fn new(package: Package) -> (r: Self)
        ensures
            r@ == fresh_entry(package@),
    {
        Entry { package, expand_triggered: false, state: State::Enabled, selected: false }
    }
}

/// A fresh row for the package put in: rows already carrying the id
/// are replaced, otherwise the row is appended.
pub open spec fn upsert(s: Seq<EntryV>, p: PackageV) -> Seq<EntryV> {
    if exists|k: int| 0 <= k < s.len() && (#[trigger] s[k]).package.id == p.id {
        s.map_values(
            |x: EntryV| if x.package.id == p.id {
                fresh_entry(p)
            } else {
                x
            },
        )
    } else {
        s.push(fresh_entry(p))
    }
}

/// Every added package folded in, first first.
pub open spec fn upsert_all(s: Seq<EntryV>, pkgs: Seq<PackageV>) -> Seq<EntryV>
    decreases pkgs.len(),
{
    if pkgs.len() == 0 {
        s
    } else {
        upsert_all(upsert(s, pkgs[0]), pkgs.drop_first())
    }
}

/// The rows carrying one of the ids moved to the state; the rest
/// untouched.
pub open spec fn mark_state(s: Seq<EntryV>, ids: Seq<Seq<char>>, st: State) -> Seq<EntryV> {
    s.map_values(
        |x: EntryV| if ids.contains(x.package.id) {
            EntryV { package: x.package, expand_triggered: x.expand_triggered, state: st, selected: x.selected }
        } else {
            x
        },
    )
}

/// What one published diff does to the catalogue: added packages open
/// fresh rows, removed ids read uninstalled, freshly disabled ids
/// read disabled, re-enabled ids read enabled again.
pub open spec fn spec_apply_diff(
    s: Seq<EntryV>,
    added: Seq<PackageV>,
    removed: Seq<Seq<char>>,
    disabled: Seq<Seq<char>>,
    re_enabled: Seq<Seq<char>>,
) -> Seq<EntryV> {
    mark_state(
        mark_state(
            mark_state(upsert_all(s, added), removed, State::Uninstalled),
            disabled,
            State::Disabled,
        ),
        re_enabled,
        State::Enabled,
    )
}

/// Whether some row carries the id.
fn entries_have_id(entries: &Vec<Entry>, id: &String) -> (r: bool)
    ensures
        r == exists|k: int|
            0 <= k < entries_view(entries@).len() && (#[trigger] entries_view(entries@)[k])
                .package.id == id@,
{
    let mut i: usize = 0;
    while i < entries.len()
        invariant
            0 <= i <= entries@.len(),
            forall|j: int| 0 <= j < i ==> (#[trigger] entries@[j]).package.id@ != id@,
        decreases entries@.len() - i,
    {
        if entries[i].package.id == *id {
            assert(entries_view(entries@)[i as int].package.id == id@);
            return true;
        }
        i += 1;
    }
    assert forall|k: int|
        0 <= k < entries_view(entries@).len() implies (#[trigger] entries_view(entries@)[k])
        .package.id != id@ by {
        assert(entries_view(entries@)[k] == entries@[k]@);
    }
    false
}

/// Put one package's row in: replace the rows carrying its id, or
/// append a fresh one.
pub fn upsert_entry(entries: &mut Vec<Entry>, package: Package)
    ensures
        entries_view(final(entries)@) == upsert(entries_view(old(entries)@), package@),
{
    let present = entries_have_id(entries, &package.id);
    if present {
        let ghost target = upsert(entries_view(entries@), package@);
        let mut i: usize = 0;
        while i < entries.len()
            invariant
                entries@.len() == old(entries)@.len(),
                target == upsert(entries_view(old(entries)@), package@),
                target.len() == entries@.len(),
                0 <= i <= entries@.len(),
                forall|k: int| 0 <= k < i ==> (#[trigger] entries@[k])@ == target[k],
                forall|k: int|
                    i <= k < entries@.len() ==> (#[trigger] entries@[k])@ == entries_view(
                        old(entries)@,
                    )[k],
            decreases entries@.len() - i,
        {
            if entries[i].package.id == package.id {
                let fresh = Entry::new(package.clone());
                entries.set(i, fresh);
            }
            i += 1;
        }
        proof {
            assert(entries_view(entries@) =~= target);
        }
    } else {
        let ghost prev = entries_view(entries@);
        entries.push(Entry::new(package));
        proof {
            assert(entries_view(entries@) =~= upsert(prev, package@));
        }
    }
}

/// Move the rows carrying one of the ids to the state.
pub fn mark_entries(entries: &mut Vec<Entry>, ids: &Vec<String>, st: State)
    ensures
        entries_view(final(entries)@) == mark_state(
            entries_view(old(entries)@),
            ids_view(ids@),
            st,
        ),
{
    let ghost target = mark_state(entries_view(entries@), ids_view(ids@), st);
    let mut i: usize = 0;
    while i < entries.len()
        invariant
            entries@.len() == old(entries)@.len(),
            target == mark_state(entries_view(old(entries)@), ids_view(ids@), st),
            target.len() == entries@.len(),
            0 <= i <= entries@.len(),
            forall|k: int| 0 <= k < i ==> (#[trigger] entries@[k])@ == target[k],
            forall|k: int|
                i <= k < entries@.len() ==> (#[trigger] entries@[k])@ == entries_view(
                    old(entries)@,
                )[k],
        decreases entries@.len() - i,
    {
        let hit = id_listed(ids, &entries[i].package.id);
        if hit {
            let pkg = entries[i].package.clone();
            let et = entries[i].expand_triggered;
            let sel = entries[i].selected;
            entries.set(i, Entry { package: pkg, expand_triggered: et, state: st, selected: sel });
        }
        i += 1;
    }
    proof {
        assert(entries_view(entries@) =~= target);
    }
}

/// Whether the id stands among the listed ones.
fn id_listed(ids: &Vec<String>, id: &String) -> (r: bool)
    ensures
        r == ids_view(ids@).contains(id@),
{
    let mut i: usize = 0;
    while i < ids.len()
        invariant
            0 <= i <= ids@.len(),
            forall|j: int| 0 <= j < i ==> (#[trigger] ids@[j])@ != id@,
        decreases ids@.len() - i,
    {
        if ids[i] == *id {
            assert(ids_view(ids@)[i as int] == id@);
            return true;
        }
        i += 1;
    }
    assert forall|j: int| 0 <= j < ids_view(ids@).len() implies ids_view(ids@)[j] != id@ by {
        assert(ids_view(ids@)[j] == ids@[j]@);
    }
    false
}

/// Fold one published diff into the catalogue.
pub fn apply_diff_to_entries(entries: &mut Vec<Entry>, d: &DiffEvent)
    ensures
        entries_view(final(entries)@) == spec_apply_diff(
            entries_view(old(entries)@),
            crate::package::pkgs_view(d.added@),
            ids_view(d.removed@),
            ids_view(d.disabled@),
            ids_view(d.re_enabled@),
        ),
{
    let ghost start = entries_view(entries@);
    let ghost added_v = crate::package::pkgs_view(d.added@);
    let mut i: usize = 0;
    proof {
        assert(added_v.skip(0) =~= added_v);
    }
    while i < d.added.len()
        invariant
            added_v == crate::package::pkgs_view(d.added@),
            0 <= i <= d.added@.len(),
            upsert_all(entries_view(entries@), added_v.skip(i as int)) == upsert_all(
                start,
                added_v,
            ),
        decreases d.added@.len() - i,
    {
        let ghost before = entries_view(entries@);
        upsert_entry(entries, d.added[i].clone());
        proof {
            assert(added_v.skip(i as int).drop_first() =~= added_v.skip(i + 1));
            assert(added_v.skip(i as int)[0] == added_v[i as int]);
            assert(upsert_all(entries_view(entries@), added_v.skip(i + 1)) == upsert_all(
                before,
                added_v.skip(i as int),
            ));
        }
        i += 1;
    }
    proof {
        assert(added_v.skip(d.added@.len() as int) =~= Seq::<PackageV>::empty());
    }
    mark_entries(entries, &d.removed, State::Uninstalled);
    mark_entries(entries, &d.disabled, State::Disabled);
    mark_entries(entries, &d.re_enabled, State::Enabled);
}

/// Take every row out of selection.
pub fn clear_selection(entries: &mut Vec<Entry>)
    ensures
        entries_view(final(entries)@) == entries_view(old(entries)@).map_values(
            |x: EntryV|
                EntryV {
                    package: x.package,
                    expand_triggered: x.expand_triggered,
                    state: x.state,
                    selected: false,
                },
        ),
{
    let ghost target = entries_view(entries@).map_values(
        |x: EntryV| EntryV {
            package: x.package,
            expand_triggered: x.expand_triggered,
            state: x.state,
            selected: false,
        },
    );
    let mut i: usize = 0;
    while i < entries.len()
        invariant
            entries@.len() == old(entries)@.len(),
            target == entries_view(old(entries)@).map_values(
                |x: EntryV|
                    EntryV {
                        package: x.package,
                        expand_triggered: x.expand_triggered,
                        state: x.state,
                        selected: false,
                    },
            ),
            target.len() == entries@.len(),
            0 <= i <= entries@.len(),
            forall|k: int| 0 <= k < i ==> (#[trigger] entries@[k])@ == target[k],
            forall|k: int|
                i <= k < entries@.len() ==> (#[trigger] entries@[k])@ == entries_view(
                    old(entries)@,
                )[k],
        decreases entries@.len() - i,
    {
        let pkg = entries[i].package.clone();
        let et = entries[i].expand_triggered;
        let st = entries[i].state;
        entries.set(i, Entry { package: pkg, expand_triggered: et, state: st, selected: false });
        i += 1;
    }
    proof {
        assert(entries_view(entries@) =~= target);
    }
}

/// The bit pattern of a lifecycle state: enabled rows carry the low
/// bit, rows taken away carry the second, and disabled rows carry
/// both the second and third.
pub open spec fn state_bits(st: State) -> u8 {
    match st {
        State::Enabled => 1,
        State::Uninstalled => 2,
        State::Disabled => 6,
    }
}

/// The bitwise meet over the selected rows' states, starting from
/// all bits: exactly the low bit survives when every selected row is
/// enabled, and exactly the second when every selected row was taken
/// away and at least one of them was uninstalled. Anything else
/// offers no action.
pub open spec fn spec_selection_bits(s: Seq<EntryV>, i: int) -> u8
    decreases i,
{
    if i <= 0 {
        7
    } else if s[i - 1].selected {
        spec_selection_bits(s, i - 1) & state_bits(s[i - 1].state)
    } else {
        spec_selection_bits(s, i - 1)
    }
}

/// Fold the selected rows' states down to the offered action's bits.
pub fn selection_bits(entries: &Vec<Entry>) -> (r: u8)
    ensures
        r == spec_selection_bits(entries_view(entries@), entries@.len() as int),
{
    let ghost ev = entries_view(entries@);
    let mut acc: u8 = 7;
    let mut i: usize = 0;
    while i < entries.len()
        invariant
            ev == entries_view(entries@),
            0 <= i <= entries@.len(),
            acc == spec_selection_bits(ev, i as int),
        decreases entries@.len() - i,
    {
        proof {
            assert(ev[i as int] == entries@[i as int]@);
        }
        if entries[i].selected {
            let bits: u8 = match entries[i].state {
                State::Enabled => 1,
                State::Uninstalled => 2,
                State::Disabled => 6,
            };
            acc = acc & bits;
        }
        i += 1;
    }
    acc
}

/// The ids of the rows standing in the state, in row order.
pub open spec fn ids_in_state(s: Seq<EntryV>, st: State) -> Seq<Seq<char>> {
    s.filter(|e: EntryV| e.state == st).map_values(|e: EntryV| e.package.id)
}

/// The ids joined with commas.
pub open spec fn joined(ids: Seq<Seq<char>>) -> Seq<char>
    decreases ids.len(),
{
    if ids.len() == 0 {
        Seq::empty()
    } else if ids.len() == 1 {
        ids[0]
    } else {
        ids[0] + ","@ + joined(ids.drop_first())
    }
}

/// The snapshot export's wire format: three comma-joined id lists.
pub open spec fn spec_export(s: Seq<EntryV>) -> Seq<char> {
    "disabled="@ + joined(ids_in_state(s, State::Disabled)) + "\nenabled="@ + joined(
        ids_in_state(s, State::Enabled),
    ) + "\nuninstalled="@ + joined(ids_in_state(s, State::Uninstalled))
}

/// Appending one id to a non-empty join appends a comma and the id.
proof fn lemma_joined_push(ids: Seq<Seq<char>>, x: Seq<char>)
    ensures
        joined(ids.push(x)) == if ids.len() == 0 {
            x
        } else {
            joined(ids) + ","@ + x
        },
    decreases ids.len(),
{
    let p = ids.push(x);
    if ids.len() == 0 {
        assert(p.len() == 1);
        assert(p[0] == x);
    } else if ids.len() == 1 {
        assert(p.len() == 2);
        assert(p[0] == ids[0]);
        assert(p.drop_first() =~= ids.drop_first().push(x));
        lemma_joined_push(ids.drop_first(), x);
        assert(joined(ids.drop_first().push(x)) == x);
        assert(joined(ids) == ids[0]);
    } else {
        assert(p[0] == ids[0]);
        assert(p.drop_first() =~= ids.drop_first().push(x));
        lemma_joined_push(ids.drop_first(), x);
        assert(joined(p) == p[0] + ","@ + joined(p.drop_first()));
        assert(joined(ids) == ids[0] + ","@ + joined(ids.drop_first()));
        assert(ids[0] + ","@ + (joined(ids.drop_first()) + ","@ + x) =~= (ids[0] + ","@
            + joined(ids.drop_first())) + ","@ + x);
    }
}

/// The ids of the rows standing in the state.
fn collect_ids(entries: &Vec<Entry>, st: State) -> (r: Vec<String>)
    ensures
        ids_view(r@) == ids_in_state(entries_view(entries@), st),
{
    let ghost ev = entries_view(entries@);
    let ghost pred = |e: EntryV| e.state == st;
    let mut out: Vec<String> = Vec::new();
    let mut i: usize = 0;
    proof {
        assert(ev.take(0) =~= Seq::<EntryV>::empty());
        reveal(Seq::filter);
        assert(ids_view(out@) =~= ev.take(0).filter(pred).map_values(
            |e: EntryV| e.package.id,
        ));
    }
    while i < entries.len()
        invariant
            ev == entries_view(entries@),
            pred == (|e: EntryV| e.state == st),
            0 <= i <= entries@.len(),
            ids_view(out@) == ev.take(i as int).filter(pred).map_values(
                |e: EntryV| e.package.id,
            ),
        decreases entries@.len() - i,
    {
        let ghost prefix = ev.take(i as int);
        proof {
            reveal(Seq::filter);
            assert(ev.take(i + 1) =~= prefix.push(ev[i as int]));
            assert(prefix.push(ev[i as int]).drop_last() =~= prefix);
            assert(ev.take(i + 1).filter(pred) == if pred(ev[i as int]) {
                prefix.filter(pred).push(ev[i as int])
            } else {
                prefix.filter(pred)
            });
            assert(ev[i as int] == entries@[i as int]@);
        }
        if entries[i].state == st {
            let ghost prev_out = out@;
            out.push(entries[i].package.id.clone());
            proof {
                assert(ids_view(out@) =~= ids_view(prev_out).push(ev[i as int].package.id));
                assert(prefix.filter(pred).push(ev[i as int]).map_values(
                    |e: EntryV| e.package.id,
                ) =~= prefix.filter(pred).map_values(|e: EntryV| e.package.id).push(
                    ev[i as int].package.id,
                ));
            }
        }
        i += 1;
    }
    proof {
        assert(ev.take(ev.len() as int) =~= ev);
    }
    out
}

/// Join the ids with commas.
fn join_ids(ids: &Vec<String>) -> (r: String)
    ensures
        r@ == joined(ids_view(ids@)),
{
    let mut r = String::new();
    let mut i: usize = 0;
    proof {
        assert(ids_view(ids@).take(0) =~= Seq::<Seq<char>>::empty());
    }
    while i < ids.len()
        invariant
            0 <= i <= ids@.len(),
            r@ == joined(ids_view(ids@).take(i as int)),
        decreases ids@.len() - i,
    {
        if i > 0 {
            r.append(",");
        }
        r.append(ids[i].as_str());
        proof {
            let iv = ids_view(ids@);
            assert(iv.take(i + 1) =~= iv.take(i as int).push(iv[i as int]));
            lemma_joined_push(iv.take(i as int), iv[i as int]);
            assert(iv[i as int] == ids@[i as int]@);
        }
        i += 1;
    }
    proof {
        assert(ids_view(ids@).take(ids@.len() as int) =~= ids_view(ids@));
    }
    r
}

/// Write the catalogue out in the snapshot wire format.
pub fn export_snapshot(entries: &Vec<Entry>) -> (r: String)
    ensures
        r@ == spec_export(entries_view(entries@)),
{
    let disabled = join_ids(&collect_ids(entries, State::Disabled));
    let enabled = join_ids(&collect_ids(entries, State::Enabled));
    let uninstalled = join_ids(&collect_ids(entries, State::Uninstalled));
    "disabled=".to_owned().concat(disabled.as_str()).concat("\nenabled=").concat(
        enabled.as_str(),
    ).concat("\nuninstalled=").concat(uninstalled.as_str())
}

} // verus!
