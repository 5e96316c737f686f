//! The synchronization engine: the canonical package set, the state
//! machine that owns it, and the once-per-cycle work plan.
//!
//! Each ready cycle drains every queued action in arrival order, then
//! enumerates, diffs against the previous snapshot, resolves labels
//! for newly seen packages only, and publishes the diff. A command
//! timeout leaves the engine untouched; any other transport error
//! discards the whole in-memory state so the next connection starts
//! from a fresh snapshot.

use vstd::prelude::*;
use vstd::string::StrSliceExecFns;

use crate::action::{Action, ActionV};
use crate::diff::{DiffEvent, diff, ids_view, pkg_ids};
use crate::package::{
    Package, PackageV, lemma_split_lines_step, pkgs_view, split_lines, strip_cr,
};
use crate::session::DeviceSession;
use crate::session::session_from_handshake;
use crate::session::spec_parse_api_level;
use crate::strutil::{find_char, lemma_find_char_is};

verus! {

impl Clone for Action {
    /// A copy naming the same package.
    fn clone(&self) -> (r: Self)
        ensures
            r@ == self@,
    {
        match self {
            Action::Uninstall(p) => Action::Uninstall(p.clone()),
            Action::Revert(id, prior) => Action::Revert(id.clone(), *prior),
            Action::Disable(id) => Action::Disable(id.clone()),
        }
    }
}

/// One slot of a cycle's work: apply one action, or enumerate.
pub enum CycleWork {
    Apply(Action),
    Enumerate,
}

/// The mathematical value of a `CycleWork`.
pub enum CycleWorkV {
    Apply(ActionV),
    Enumerate,
}

impl View for CycleWork {
    type V = CycleWorkV;

    open spec fn view(&self) -> CycleWorkV {
        match self {
            CycleWork::Apply(a) => CycleWorkV::Apply(a@),
            CycleWork::Enumerate => CycleWorkV::Enumerate,
        }
    }
}

/// The value sequence of an action vector.
pub open spec fn actions_view(v: Seq<Action>) -> Seq<ActionV> {
    v.map_values(|a: Action| a@)
}

/// A cycle's whole plan: every queued action in enqueue order, then
/// one enumeration.
pub open spec fn cycle_plan(q: Seq<ActionV>) -> Seq<CycleWorkV> {
    q.map_values(|a: ActionV| CycleWorkV::Apply(a)) + seq![CycleWorkV::Enumerate]
}

/// Law: action ordering. Two actions queued at positions `i` and
/// `j`, `i` first, stand in the plan in that order, and both stand
/// before the cycle's enumeration.
pub proof fn lemma_cycle_order(q: Seq<ActionV>, i: int, j: int)
    requires
        0 <= i < j < q.len(),
    ensures
        cycle_plan(q)[i] == CycleWorkV::Apply(q[i]),
        cycle_plan(q)[j] == CycleWorkV::Apply(q[j]),
        cycle_plan(q)[q.len() as int] == CycleWorkV::Enumerate,
{
}

/// The actions of one cycle, drained in arrival order before the
/// cycle's enumeration. A failed action only reports; it never stops
/// the rest of the batch.
pub struct ActionQueue {
    pub actions: Vec<Action>,
    pub next: usize,
}

impl ActionQueue {
    pub open spec fn wf(&self) -> bool {
        self.next <= self.actions@.len()
    }

    /// Take over one cycle's pending actions.
    pub fn new(actions: Vec<Action>) -> (r: Self)
        ensures
            r.wf(),
            r.actions@ == actions@,
            r.next == 0,
    {
        ActionQueue { actions, next: 0 }
    }

    /// Hand out the next slot of the plan: the queued actions one by
    /// one in enqueue order, then the enumeration.
    pub fn next_work(&mut self) -> (w: CycleWork)
        requires
            old(self).wf(),
        ensures
            final(self).wf(),
            final(self).actions@ == old(self).actions@,
            w@ == cycle_plan(actions_view(old(self).actions@))[if old(self).next
                < old(self).actions@.len() {
                old(self).next as int
            } else {
                old(self).actions@.len() as int
            }],
            old(self).next < old(self).actions@.len() ==> final(self).next == old(self).next
                + 1,
            old(self).next >= old(self).actions@.len() ==> final(self).next == old(self).next,
    {
        if self.next < self.actions.len() {
            let a = self.actions[self.next].clone();
            self.next = self.next + 1;
            proof {
                let q = actions_view(self.actions@);
                assert(cycle_plan(q)[self.next - 1] == CycleWorkV::Apply(q[self.next - 1]));
            }
            CycleWork::Apply(a)
        } else {
            proof {
                let q = actions_view(self.actions@);
                assert(cycle_plan(q)[q.len() as int] == CycleWorkV::Enumerate);
            }
            CycleWork::Enumerate
        }
    }
}

/// One line of the helper payload's output: the first field is
/// discarded, the second is the package id, and everything after the
/// second separator is the label, spaces included. A line with fewer
/// than three fields carries nothing.
pub open spec fn spec_extractor_line(line: Seq<char>) -> Option<(Seq<char>, Seq<char>)> {
    let i = find_char(line, ' ');
    if i >= line.len() {
        None
    } else {
        let rest = line.skip(i + 1);
        let j = find_char(rest, ' ');
        if j >= rest.len() {
            None
        } else {
            Some((rest.take(j), rest.skip(j + 1)))
        }
    }
}

/// Parse one line of the helper's output into id and label.
pub fn parse_extractor_line(line: &str) -> (r: Option<(String, String)>)
    ensures
        match r {
            Some(p) => spec_extractor_line(strip_cr(line@)) == Some((p.0@, p.1@)),
            None => spec_extractor_line(strip_cr(line@)) is None,
        },
{
    let len0 = line.unicode_len();
    let end = if len0 > 0 && line.get_char(len0 - 1) == '\r' {
        len0 - 1
    } else {
        len0
    };
    let ghost lv = strip_cr(line@);
    proof {
        assert(lv =~= line@.subrange(0, end as int));
    }
    let mut i: usize = 0;
    while i < end && line.get_char(i) != ' '
        invariant
            end <= len0 == line@.len(),
            lv == line@.subrange(0, end as int),
            0 <= i <= end,
            forall|k: int| 0 <= k < i ==> lv[k] != ' ',
        decreases end - i,
    {
        i += 1;
    }
    proof {
        lemma_find_char_is(lv, ' ', i as int);
    }
    if i == end {
        return None;
    }
    let ghost rest = lv.skip(i + 1);
    let mut j: usize = i + 1;
    while j < end && line.get_char(j) != ' '
        invariant
            end <= len0 == line@.len(),
            lv == line@.subrange(0, end as int),
            0 <= i < end,
            rest == lv.skip(i + 1),
            i + 1 <= j <= end,
            forall|k: int| i + 1 <= k < j ==> lv[k] != ' ',
        decreases end - j,
    {
        j += 1;
    }
    proof {
        assert forall|k: int| 0 <= k < j - i - 1 implies rest[k] != ' ' by {
            assert(rest[k] == lv[k + i + 1]);
        }
        if j < end {
            assert(rest[j - i - 1] == lv[j as int]);
        }
        lemma_find_char_is(rest, ' ', j - i - 1);
    }
    if j == end {
        return None;
    }
    let id = line.substring_char(i + 1, j).to_owned();
    let name = line.substring_char(j + 1, end).to_owned();
    proof {
        assert(id@ =~= rest.take(j - i - 1));
        assert(name@ =~= rest.skip(j - i));
    }
    Some((id, name))
}

/// Fill one resolved label in: every record with this id whose name
/// is still unset takes it; a name once set is never replaced.
pub open spec fn fill_one(s: Seq<PackageV>, id: Seq<char>, name: Seq<char>) -> Seq<PackageV> {
    s.map_values(
        |p: PackageV| if p.id == id && p.name is None {
            PackageV { id: p.id, path: p.path, name: Some(name) }
        } else {
            p
        },
    )
}

/// Set the label on the records that still lack one.
pub fn fill_label(pkgs: &mut Vec<Package>, id: &String, name: &String)
    ensures
        pkgs_view(final(pkgs)@) == fill_one(pkgs_view(old(pkgs)@), id@, name@),
{
    let ghost target = fill_one(pkgs_view(old(pkgs)@), id@, name@);
    let mut i: usize = 0;
    while i < pkgs.len()
        invariant
            pkgs@.len() == old(pkgs)@.len(),
            target == fill_one(pkgs_view(old(pkgs)@), id@, name@),
            0 <= i <= pkgs@.len(),
            forall|k: int| 0 <= k < i ==> (#[trigger] pkgs@[k])@ == target[k],
            forall|k: int| i <= k < pkgs@.len() ==> (#[trigger] pkgs@[k])@ == pkgs_view(
                old(pkgs)@,
            )[k],
        decreases pkgs@.len() - i,
    {
        let is_unnamed = pkgs[i].name.is_none();
        if is_unnamed && pkgs[i].id == *id {
            let named: Option<String> = Some(name.clone());
            pkgs[i].name = named;
        }
        i += 1;
    }
    proof {
        assert(pkgs_view(pkgs@) =~= target);
    }
}

/// Law: a resolved label is monotonic. A record whose name is set
/// is never touched by any further fill, whatever id and name the
/// fill carries.
pub proof fn lemma_fill_monotonic(s: Seq<PackageV>, id: Seq<char>, name: Seq<char>, k: int)
    requires
        0 <= k < s.len(),
        s[k].name is Some,
    ensures
        fill_one(s, id, name)[k] == s[k],
{
}

/// The labels a whole helper output fills in, line by line from the
/// top.
pub open spec fn apply_lines(s: Seq<PackageV>, pieces: Seq<Seq<char>>) -> Seq<PackageV>
    decreases pieces.len(),
{
    if pieces.len() == 0 {
        s
    } else {
        let stepped = match spec_extractor_line(strip_cr(pieces[0])) {
            Some(p) => fill_one(s, p.0, p.1),
            None => s,
        };
        apply_lines(stepped, pieces.drop_first())
    }
}

/// Read the helper's whole output and fill the labels it carries
/// into the records, first line first.
pub fn apply_extractor_output(pkgs: &mut Vec<Package>, out: &str)
    ensures
        pkgs_view(final(pkgs)@) == apply_lines(pkgs_view(old(pkgs)@), split_lines(out@)),
{
    let ghost target = apply_lines(pkgs_view(old(pkgs)@), split_lines(out@));
    let len = out.unicode_len();
    let mut i: usize = 0;
    proof {
        assert(out@.skip(0) =~= out@);
    }
    while i < len
        invariant
            len == out@.len(),
            0 <= i <= len,
            target == apply_lines(pkgs_view(old(pkgs)@), split_lines(out@)),
            target == apply_lines(pkgs_view(pkgs@), split_lines(out@.skip(i as int))),
        decreases len - i,
    {
        let mut j: usize = i;
        while j < len && out.get_char(j) != '\n'
            invariant
                len == out@.len(),
                i <= j <= len,
                forall|k: int| i <= k < j ==> out@[k] != '\n',
            decreases len - j,
        {
            j += 1;
        }
        let piece = out.substring_char(i, j).to_owned();
        let ghost pv = pkgs_view(pkgs@);
        proof {
            lemma_split_lines_step(out@, i as int, j as int);
        }
        match parse_extractor_line(piece.as_str()) {
            Some(p) => {
                fill_label(pkgs, &p.0, &p.1);
            },
            None => {},
        }
        proof {
            let s_i = split_lines(out@.skip(i as int));
            let rest = if j < len {
                split_lines(out@.skip(j + 1))
            } else {
                Seq::<Seq<char>>::empty()
            };
            assert(s_i == seq![piece@] + rest);
            assert(s_i.drop_first() =~= rest);
            assert(s_i[0] == piece@);
            assert(s_i.len() > 0);
            assert(apply_lines(pkgs_view(pkgs@), rest) == apply_lines(pv, s_i));
        }
        if j == len {
            proof {
                assert(target == apply_lines(pkgs_view(pkgs@), Seq::<Seq<char>>::empty()));
            }
            return ;
        }
        i = j + 1;
    }
    proof {
        assert(out@.skip(len as int) =~= Seq::<char>::empty());
    }
}

/// No two records carry the same id.
pub open spec fn ids_unique(s: Seq<PackageV>) -> bool {
    forall|i: int, j: int| 0 <= i < j < s.len() ==> (#[trigger] s[i]).id != (#[trigger] s[j]).id
}

/// The canonical package set: one record per id, owned by the
/// synchronization loop alone.
pub struct PackageSet {
    pub records: Vec<Package>,
}

impl PackageSet {
    pub open spec fn wf(&self) -> bool {
        ids_unique(pkgs_view(self.records@))
    }

    pub fn new() -> (r: Self)
        ensures
            r.wf(),
            r.records@.len() == 0,
    {
        PackageSet { records: Vec::new() }
    }

    /// The known ids, in record order.
    pub fn ids(&self) -> (r: Vec<String>)
        ensures
            ids_view(r@) == pkg_ids(self.records@),
    {
        let mut out: Vec<String> = Vec::new();
        let mut i: usize = 0;
        while i < self.records.len()
            invariant
                0 <= i <= self.records@.len(),
                out@.len() == i,
                forall|k: int| 0 <= k < i ==> (#[trigger] out@[k])@ == self.records@[k].id@,
            decreases self.records@.len() - i,
        {
            out.push(self.records[i].id.clone());
            i += 1;
        }
        proof {
            assert(ids_view(out@) =~= pkg_ids(self.records@));
        }
        out
    }

    /// Set the record's name if and only if it has none yet: a label
    /// is resolved at most once per id and never replaced.
    pub fn set_name_once(&mut self, id: &String, name: &String)
        ensures
            pkgs_view(final(self).records@) == fill_one(
                pkgs_view(old(self).records@),
                id@,
                name@,
            ),
    {
        fill_label(&mut self.records, id, name);
    }
}

/// The connection lifecycle of the engine.
#[derive(PartialEq, Eq, Structural, Clone, Copy, Debug)]
pub enum SyncState {
    Disconnected,
    Connecting,
    Ready,
}

/// The engine: the lifecycle state, the canonical records, and the
/// ids last seen disabled.
pub struct SyncEngine {
    pub state: SyncState,
    pub pkgs: PackageSet,
    pub disabled: Vec<String>,
}

impl SyncEngine {
    pub open spec fn wf(&self) -> bool {
        self.pkgs.wf()
    }

    /// A fresh engine: no session, nothing known.
    pub fn new() -> (r: Self)
        ensures
            r.wf(),
            r.state == SyncState::Disconnected,
            r.pkgs.records@.len() == 0,
            r.disabled@.len() == 0,
    {
        SyncEngine { state: SyncState::Disconnected, pkgs: PackageSet::new(), disabled: Vec::new() }
    }

    /// Begin scanning for a device.
    pub fn start_scan(&mut self)
        ensures
            final(self).state == SyncState::Connecting,
            final(self).pkgs == old(self).pkgs,
            final(self).disabled == old(self).disabled,
    {
        self.state = SyncState::Connecting;
    }

    /// Read the handshake's version answer. A parseable level brings
    /// the engine up; anything else discards the session and sends
    /// the engine back to scanning.
    pub fn on_handshake(&mut self, version_output: &str) -> (r: Option<DeviceSession>)
        ensures
            final(self).pkgs == old(self).pkgs,
            final(self).disabled == old(self).disabled,
            match r {
                Some(sess) => spec_parse_api_level(version_output@) == Some(sess.api_level)
                    && final(self).state == SyncState::Ready,
                None => spec_parse_api_level(version_output@) is None && final(self).state
                    == SyncState::Disconnected,
            },
    {
        match session_from_handshake(version_output) {
            Some(sess) => {
                self.state = SyncState::Ready;
                Some(sess)
            },
            None => {
                self.state = SyncState::Disconnected;
                None
            },
        }
    }

    /// A command timeout is recoverable: the engine keeps all state
    /// and the loop simply goes on.
    pub fn on_timeout(&mut self)
        ensures
            final(self).state == old(self).state,
            final(self).pkgs == old(self).pkgs,
            final(self).disabled == old(self).disabled,
    {
    }

    /// Any other transport error is fatal: the session is gone and
    /// the whole in-memory state is discarded, so reconnection takes
    /// a fresh full snapshot.
    pub fn on_fatal_error(&mut self)
        ensures
            final(self).wf(),
            final(self).state == SyncState::Disconnected,
            final(self).pkgs.records@.len() == 0,
            final(self).disabled@.len() == 0,
    {
        self.state = SyncState::Disconnected;
        self.pkgs = PackageSet::new();
        self.disabled = Vec::new();
    }

    /// Fold one enumeration into the engine: the returned diff is
    /// the four set differences against the previous snapshot, and
    /// the new canonical records are the current listing with every
    /// already-known record carried over, resolved name and all. The
    /// disabled listing replaces the old one.
    pub fn apply_snapshot(&mut self, cur_full: &Vec<Package>, cur_disabled: &Vec<String>) -> (d:
        DiffEvent)
        requires
            old(self).wf(),
            ids_unique(pkgs_view(cur_full@)),
        ensures
            final(self).wf(),
            final(self).state == old(self).state,
            pkgs_view(d.added@) == pkgs_view(cur_full@).filter(
                |p: PackageV| !pkg_ids(old(self).pkgs.records@).contains(p.id),
            ),
            ids_view(d.removed@) == pkg_ids(old(self).pkgs.records@).filter(
                |i: Seq<char>| !pkg_ids(cur_full@).contains(i),
            ),
            ids_view(d.disabled@) == ids_view(cur_disabled@).filter(
                |i: Seq<char>| !ids_view(old(self).disabled@).contains(i),
            ),
            ids_view(d.re_enabled@) == ids_view(old(self).disabled@).filter(
                |i: Seq<char>| !ids_view(cur_disabled@).contains(i),
            ),
            pkgs_view(final(self).pkgs.records@) == merge_records(
                pkgs_view(old(self).pkgs.records@),
                pkgs_view(cur_full@),
            ),
            ids_view(final(self).disabled@) == ids_view(cur_disabled@),
    {
        let prev_ids = self.pkgs.ids();
        let d = diff(&prev_ids, &self.disabled, cur_full, cur_disabled);
        let ghost prev_v = pkgs_view(self.pkgs.records@);
        let ghost cur_v = pkgs_view(cur_full@);
        let mut merged: Vec<Package> = Vec::new();
        let mut i: usize = 0;
        while i < cur_full.len()
            invariant
                prev_v == pkgs_view(self.pkgs.records@),
                cur_v == pkgs_view(cur_full@),
                0 <= i <= cur_full@.len(),
                merged@.len() == i,
                forall|k: int|
                    0 <= k < i ==> (#[trigger] merged@[k])@ == merge_records(prev_v, cur_v)[k],
            decreases cur_full@.len() - i,
        {
            let m = merged_record(&self.pkgs.records, &cur_full[i]);
            proof {
                assert(merge_records(prev_v, cur_v)[i as int] == (
                match record_with_id(prev_v, cur_v[i as int].id) {
                    Some(q) => q,
                    None => cur_v[i as int],
                }));
            }
            merged.push(m);
            i += 1;
        }
        proof {
            assert(pkgs_view(merged@) =~= merge_records(prev_v, cur_v));
            lemma_merge_keeps_ids(prev_v, cur_v);
        }
        let disabled_copy = clone_ids(cur_disabled);
        self.pkgs = PackageSet { records: merged };
        self.disabled = disabled_copy;
        d
    }
}

/// The record of `s` carrying `id`, first one first, if any does.
pub open spec fn record_with_id(s: Seq<PackageV>, id: Seq<char>) -> Option<PackageV>
    decreases s.len(),
{
    if s.len() == 0 {
        None
    } else if s[0].id == id {
        Some(s[0])
    } else {
        record_with_id(s.drop_first(), id)
    }
}

/// The current listing, with every record whose id was known before
/// replaced by the known record: retained packages keep their
/// resolved names, new ones come in as listed, and whatever the
/// listing dropped is gone.
pub open spec fn merge_records(prev: Seq<PackageV>, cur: Seq<PackageV>) -> Seq<PackageV> {
    cur.map_values(
        |p: PackageV| match record_with_id(prev, p.id) {
            Some(q) => q,
            None => p,
        },
    )
}

/// A record found by id carries that id.
proof fn lemma_record_with_id(s: Seq<PackageV>, id: Seq<char>)
    ensures
        record_with_id(s, id) matches Some(q) ==> q.id == id,
    decreases s.len(),
{
    if s.len() > 0 && s[0].id != id {
        lemma_record_with_id(s.drop_first(), id);
    }
}

/// Merging does not touch the ids: position for position they are
/// the current listing's, so their uniqueness carries over.
proof fn lemma_merge_keeps_ids(prev: Seq<PackageV>, cur: Seq<PackageV>)
    requires
        ids_unique(cur),
    ensures
        ids_unique(merge_records(prev, cur)),
{
    let m = merge_records(prev, cur);
    assert forall|i: int, j: int|
        0 <= i < j < m.len() implies (#[trigger] m[i]).id != (#[trigger] m[j]).id by {
        lemma_record_with_id(prev, cur[i].id);
        lemma_record_with_id(prev, cur[j].id);
        assert(m[i].id == cur[i].id);
        assert(m[j].id == cur[j].id);
    }
}

/// A scan that found no hit before `k`, and a hit at `k` if `k` is
/// in range, has found the first record with the id.
proof fn lemma_record_with_id_at(s: Seq<PackageV>, id: Seq<char>, k: int)
    requires
        0 <= k <= s.len(),
        forall|j: int| 0 <= j < k ==> (#[trigger] s[j]).id != id,
        k < s.len() ==> s[k].id == id,
    ensures
        record_with_id(s, id) == if k < s.len() {
            Some(s[k])
        } else {
            None::<PackageV>
        },
    decreases s.len(),
{
    if s.len() == 0 {
    } else if s[0].id == id {
        assert(k == 0);
    } else {
        assert(k >= 1);
        let t = s.drop_first();
        assert forall|j: int| 0 <= j < k - 1 implies (#[trigger] t[j]).id != id by {
            assert(t[j] == s[j + 1]);
        }
        assert(k - 1 < t.len() ==> t[k - 1] == s[k]);
        lemma_record_with_id_at(t, id, k - 1);
        if k < s.len() {
            assert(t[k - 1] == s[k]);
        }
    }
}

/// The record the merged listing keeps for one listed package: the
/// known record under the same id, or the listed package itself.
fn merged_record(records: &Vec<Package>, p: &Package) -> (r: Package)
    ensures
        r@ == (match record_with_id(pkgs_view(records@), p.id@) {
            Some(q) => q,
            None => p@,
        }),
{
    let ghost rv = pkgs_view(records@);
    let mut i: usize = 0;
    while i < records.len()
        invariant
            rv == pkgs_view(records@),
            0 <= i <= records@.len(),
            forall|j: int| 0 <= j < i ==> (#[trigger] rv[j]).id != p.id@,
        decreases records@.len() - i,
    {
        if records[i].id == p.id {
            proof {
                assert(rv[i as int] == records@[i as int]@);
                lemma_record_with_id_at(rv, p.id@, i as int);
            }
            return records[i].clone();
        }
        proof {
            assert(rv[i as int] == records@[i as int]@);
        }
        i += 1;
    }
    proof {
        lemma_record_with_id_at(rv, p.id@, i as int);
    }
    p.clone()
}

/// Whether some package of the listing carries the id.
fn listing_has_id(pkgs: &Vec<Package>, id: &String) -> (r: bool)
    ensures
        r == pkg_ids(pkgs@).contains(id@),
{
    let mut i: usize = 0;
    while i < pkgs.len()
        invariant
            0 <= i <= pkgs@.len(),
            forall|j: int| 0 <= j < i ==> (#[trigger] pkgs@[j]).id@ != id@,
        decreases pkgs@.len() - i,
    {
        if pkgs[i].id == *id {
            assert(pkg_ids(pkgs@)[i as int] == id@);
            return true;
        }
        i += 1;
    }
    assert forall|j: int| 0 <= j < pkg_ids(pkgs@).len() implies pkg_ids(pkgs@)[j] != id@ by {
        assert(pkg_ids(pkgs@)[j] == pkgs@[j].id@);
    }
    false
}

/// One record per id out of a raw listing: the first record under
/// each id is kept, later ones under the same id are dropped, and no
/// id is lost. The result satisfies the uniqueness that
/// `apply_snapshot` asks of an enumeration.
pub fn dedup_records(v: &Vec<Package>) -> (r: Vec<Package>)
    ensures
        ids_unique(pkgs_view(r@)),
        forall|id: Seq<char>| pkg_ids(r@).contains(id) <==> pkg_ids(v@).contains(id),
        forall|k: int|
            0 <= k < r@.len() ==> record_with_id(pkgs_view(v@), (#[trigger] pkgs_view(r@)[k]).id)
                == Some(pkgs_view(r@)[k]),
{
    let ghost vv = pkgs_view(v@);
    let mut out: Vec<Package> = Vec::new();
    let mut i: usize = 0;
    while i < v.len()
        invariant
            vv == pkgs_view(v@),
            0 <= i <= v@.len(),
            ids_unique(pkgs_view(out@)),
            forall|id: Seq<char>| pkg_ids(out@).contains(id) <==> pkg_ids(
                v@.take(i as int),
            ).contains(id),
            forall|k: int|
                0 <= k < out@.len() ==> record_with_id(vv, (#[trigger] pkgs_view(out@)[k]).id)
                    == Some(pkgs_view(out@)[k]),
        decreases v@.len() - i,
    {
        let seen = listing_has_id(&out, &v[i].id);
        let ghost oldset = pkg_ids(v@.take(i as int));
        let ghost newset = pkg_ids(v@.take(i + 1));
        proof {
            assert(newset =~= oldset.push(v@[i as int].id@));
        }
        if !seen {
            let ghost prev = out@;
            proof {
                // nothing before position i carries this id, so the
                // record here is the first one under it
                assert forall|j: int| 0 <= j < i implies (#[trigger] vv[j]).id
                    != v@[i as int].id@ by {
                    if vv[j].id == v@[i as int].id@ {
                        assert(oldset[j] == vv[j].id);
                        assert(oldset.contains(vv[j].id));
                        assert(pkg_ids(out@).contains(vv[j].id));
                    }
                }
                lemma_record_with_id_at(vv, v@[i as int].id@, i as int);
            }
            out.push(v[i].clone());
            proof {
                assert(pkgs_view(out@) =~= pkgs_view(prev).push(v@[i as int]@));
                assert(pkg_ids(out@) =~= pkg_ids(prev).push(v@[i as int].id@));
                assert forall|a: int, b: int|
                    0 <= a < b < pkgs_view(out@).len() implies (#[trigger] pkgs_view(out@)[a]).id
                    != (#[trigger] pkgs_view(out@)[b]).id by {
                    if b == pkgs_view(out@).len() - 1 && pkgs_view(out@)[a].id == pkgs_view(
                        out@,
                    )[b].id {
                        assert(pkg_ids(prev)[a] == pkgs_view(prev)[a].id);
                        assert(pkg_ids(prev).contains(v@[i as int].id@));
                    }
                }
                assert forall|id: Seq<char>|
                    #[trigger] pkg_ids(out@).contains(id) implies newset.contains(id) by {
                    let k = choose|k: int|
                        0 <= k < pkg_ids(out@).len() && pkg_ids(out@)[k] == id;
                    if k < pkg_ids(prev).len() {
                        assert(pkg_ids(prev)[k] == id);
                        assert(pkg_ids(prev).contains(id));
                        assert(oldset.contains(id));
                        let w = choose|w: int| 0 <= w < oldset.len() && oldset[w] == id;
                        assert(newset[w] == id);
                    } else {
                        assert(id == v@[i as int].id@);
                        assert(newset[i as int] == id);
                    }
                }
                assert forall|id: Seq<char>|
                    #[trigger] newset.contains(id) implies pkg_ids(out@).contains(id) by {
                    let k = choose|k: int| 0 <= k < newset.len() && newset[k] == id;
                    if k < i {
                        assert(oldset[k] == id);
                        assert(oldset.contains(id));
                        assert(pkg_ids(prev).contains(id));
                        let w = choose|w: int|
                            0 <= w < pkg_ids(prev).len() && pkg_ids(prev)[w] == id;
                        assert(pkg_ids(out@)[w] == id);
                    } else {
                        assert(id == v@[i as int].id@);
                        assert(pkg_ids(out@)[pkg_ids(out@).len() - 1] == id);
                    }
                }
            }
        } else {
            proof {
                assert forall|id: Seq<char>|
                    #[trigger] newset.contains(id) implies pkg_ids(out@).contains(id) by {
                    let k = choose|k: int| 0 <= k < newset.len() && newset[k] == id;
                    if k < i {
                        assert(oldset[k] == id);
                        assert(oldset.contains(id));
                    } else {
                        assert(id == v@[i as int].id@);
                    }
                }
                assert forall|id: Seq<char>|
                    #[trigger] pkg_ids(out@).contains(id) implies newset.contains(id) by {
                    assert(oldset.contains(id));
                    let w = choose|w: int| 0 <= w < oldset.len() && oldset[w] == id;
                    assert(newset[w] == id);
                }
            }
        }
        i += 1;
    }
    proof {
        assert(v@.take(v@.len() as int) =~= v@);
    }
    out
}

/// A copy of the ids, value for value.
fn clone_ids(v: &Vec<String>) -> (r: Vec<String>)
    ensures
        ids_view(r@) == ids_view(v@),
{
    let mut out: Vec<String> = Vec::new();
    let mut i: usize = 0;
    while i < v.len()
        invariant
            0 <= i <= v@.len(),
            out@.len() == i,
            forall|k: int| 0 <= k < i ==> (#[trigger] out@[k])@ == v@[k]@,
        decreases v@.len() - i,
    {
        out.push(v[i].clone());
        i += 1;
    }
    proof {
        assert(ids_view(out@) =~= ids_view(v@));
    }
    out
}

} // verus!
