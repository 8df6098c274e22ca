//! The mod registry: the authoritative mapping from mod id to activation
//! state, with all-or-nothing batch activation and preset reconciliation.

use std::collections::HashMap;
use vstd::prelude::*;
use vstd::std_specs::vec::vec_index_mut;

use crate::lemma_contains_push;
use crate::lemma_deep_view_push;
use crate::lemma_filter_all_false;
use crate::lemma_filter_congruence;
use crate::lemma_filter_membership;
use crate::lemma_no_dup_push;
use crate::slice_contains_str;
use crate::str_eq;
use crate::Error;
use crate::Preset;
use crate::Result;

verus! {

/// Declares `serde_json::Value` as an opaque type, so that registry entries
/// can carry foreign JSON fields through every operation untouched. Nothing
/// is assumed about what such a value holds; the contracts only state that
/// it is preserved.
#[verifier::external_type_specification]
#[verifier::external_body]
pub struct ExValue(serde_json::Value);

/// One tracked mod: its stable id, whether the host application should load
/// it, and any additional fields preserved verbatim across load and save.
pub struct Mod {
    /// Unique, stable identifier of the mod.
    pub id: String,
    /// Whether the mod is active.
    pub active: bool,
    /// Other currently unimportant data, preserved as loaded.
    pub other: HashMap<String, serde_json::Value>,
}

/// The full set of tracked mods, keyed by id, plus an opaque top-level
/// mapping preserved the same way.
///
/// Invariant: ids are unique. Every batch activation either succeeds for the
/// whole requested batch or mutates nothing.
pub struct ModCfg {
    /// Installed mods and their data.
    pub mods: Vec<Mod>,
    /// Additional data that is currently unimportant to us but should be
    /// preserved.
    pub other: HashMap<String, serde_json::Value>,
}

/// The entries after setting every entry whose id occurs in `ids` to
/// activation state `b`, leaving all other entries untouched.
pub open spec fn batch_set(entries: Seq<Mod>, ids: Seq<Seq<char>>, b: bool) -> Seq<Mod> {
    entries.map_values(
        |m: Mod|
            if ids.contains(m.id@) {
                (Mod { id: m.id, active: b, other: m.other })
            } else {
                m
            },
    )
}

/// Setting one more id after a batch is the same as setting the batch
/// extended by that id.
pub proof fn lemma_batch_set_step(entries: Seq<Mod>, ids: Seq<Seq<char>>, x: Seq<char>, b: bool)
    ensures
        batch_set(batch_set(entries, ids, b), seq![x], b) == batch_set(entries, ids.push(x), b),
{
    assert forall|j: int| 0 <= j < entries.len() implies batch_set(
        batch_set(entries, ids, b),
        seq![x],
        b,
    )[j] == batch_set(entries, ids.push(x), b)[j] by {
        lemma_contains_push(ids, x, entries[j].id@);
        assert(seq![x].contains(entries[j].id@) <==> entries[j].id@ == x) by {
            assert(seq![x][0] == x);
            if seq![x].contains(entries[j].id@) {
                let w = choose|w: int|
                    0 <= w < seq![x].len() && seq![x][w] == entries[j].id@;
                assert(w == 0);
            }
        }
    }
    assert(batch_set(batch_set(entries, ids, b), seq![x], b) =~= batch_set(
        entries,
        ids.push(x),
        b,
    ));
}

/// A preset applies to a registry when it is enabled and every id it names
/// is known to the registry.
pub open spec fn preset_applies(p: Preset, cfg: ModCfg) -> bool {
    p.enabled && forall|j: int| 0 <= j < p.mod_ids().len() ==> cfg.has_mod(#[trigger] p.mod_ids()[j])
}

/// Whether some preset in the collection applies to the registry and names
/// the given id.
pub open spec fn union_wants(presets: Seq<Preset>, cfg: ModCfg, id: Seq<char>) -> bool {
    exists|k: int|
        0 <= k < presets.len() && preset_applies(#[trigger] presets[k], cfg)
            && presets[k].mod_ids().contains(id)
}

/// Extending the preset collection by one preset extends the union by that
/// preset's mods exactly when it applies.
pub proof fn lemma_union_wants_push(presets: Seq<Preset>, p: Preset, cfg: ModCfg, id: Seq<char>)
    ensures
        union_wants(presets.push(p), cfg, id) <==> (union_wants(presets, cfg, id) || (
        preset_applies(p, cfg) && p.mod_ids().contains(id))),
{
    if union_wants(presets, cfg, id) {
        let k = choose|k: int|
            0 <= k < presets.len() && preset_applies(#[trigger] presets[k], cfg)
                && presets[k].mod_ids().contains(id);
        assert(presets.push(p)[k] == presets[k]);
        assert(union_wants(presets.push(p), cfg, id));
    }
    if preset_applies(p, cfg) && p.mod_ids().contains(id) {
        assert(presets.push(p)[presets.len() as int] == p);
        assert(union_wants(presets.push(p), cfg, id));
    }
    if union_wants(presets.push(p), cfg, id) {
        let k = choose|k: int|
            0 <= k < presets.push(p).len() && preset_applies(#[trigger] presets.push(p)[k], cfg)
                && presets.push(p)[k].mod_ids().contains(id);
        if k < presets.len() {
            assert(presets[k] == presets.push(p)[k]);
        } else {
            assert(presets.push(p)[k] == p);
        }
    }
}

/// Whether some enabled preset in the collection names this id and the
/// registry does not know it.
pub open spec fn missing_from(presets: Seq<Preset>, cfg: ModCfg, id: Seq<char>) -> bool {
    exists|j: int|
        0 <= j < presets.len() && (#[trigger] presets[j]).enabled && presets[j].mod_ids().contains(
            id,
        ) && !cfg.has_mod(id)
}

/// Whether some enabled preset of this name fails to apply to the registry.
pub open spec fn preset_failed(presets: Seq<Preset>, cfg: ModCfg, nm: Seq<char>) -> bool {
    exists|j: int|
        0 <= j < presets.len() && (#[trigger] presets[j]).enabled && !preset_applies(
            presets[j],
            cfg,
        ) && presets[j].name@ == nm
}

/// Unfolding of `missing_from` over a collection extended by one preset.
pub proof fn lemma_missing_from_push(presets: Seq<Preset>, p: Preset, cfg: ModCfg, id: Seq<char>)
    ensures
        missing_from(presets.push(p), cfg, id) <==> (missing_from(presets, cfg, id) || (p.enabled
            && p.mod_ids().contains(id) && !cfg.has_mod(id))),
{
    if missing_from(presets, cfg, id) {
        let j = choose|j: int|
            0 <= j < presets.len() && (#[trigger] presets[j]).enabled
                && presets[j].mod_ids().contains(id) && !cfg.has_mod(id);
        assert(presets.push(p)[j] == presets[j]);
        assert(missing_from(presets.push(p), cfg, id));
    }
    if p.enabled && p.mod_ids().contains(id) && !cfg.has_mod(id) {
        assert(presets.push(p)[presets.len() as int] == p);
        assert(missing_from(presets.push(p), cfg, id));
    }
    if missing_from(presets.push(p), cfg, id) {
        let j = choose|j: int|
            0 <= j < presets.push(p).len() && (#[trigger] presets.push(p)[j]).enabled
                && presets.push(p)[j].mod_ids().contains(id) && !cfg.has_mod(id);
        if j < presets.len() {
            assert(presets[j] == presets.push(p)[j]);
        } else {
            assert(presets.push(p)[j] == p);
        }
    }
}

/// Unfolding of `preset_failed` over a collection extended by one preset.
pub proof fn lemma_preset_failed_push(presets: Seq<Preset>, p: Preset, cfg: ModCfg, nm: Seq<char>)
    ensures
        preset_failed(presets.push(p), cfg, nm) <==> (preset_failed(presets, cfg, nm) || (p.enabled
            && !preset_applies(p, cfg) && p.name@ == nm)),
{
    if preset_failed(presets, cfg, nm) {
        let j = choose|j: int|
            0 <= j < presets.len() && (#[trigger] presets[j]).enabled && !preset_applies(
                presets[j],
                cfg,
            ) && presets[j].name@ == nm;
        assert(presets.push(p)[j] == presets[j]);
        assert(preset_failed(presets.push(p), cfg, nm));
    }
    if p.enabled && !preset_applies(p, cfg) && p.name@ == nm {
        assert(presets.push(p)[presets.len() as int] == p);
        assert(preset_failed(presets.push(p), cfg, nm));
    }
    if preset_failed(presets.push(p), cfg, nm) {
        let j = choose|j: int|
            0 <= j < presets.push(p).len() && (#[trigger] presets.push(p)[j]).enabled
                && !preset_applies(presets.push(p)[j], cfg) && presets.push(p)[j].name@ == nm;
        if j < presets.len() {
            assert(presets[j] == presets.push(p)[j]);
        } else {
            assert(presets.push(p)[j] == p);
        }
    }
}

/// Setting the same batch twice with the same activation value yields the
/// same registry state as setting it once: after the first call of
/// `set_mods_active` the same ids validate identically, and the second
/// application leaves every entry as it already is.
pub proof fn lemma_set_mods_active_idempotent(
    cfg: ModCfg,
    next: ModCfg,
    ids: Seq<Seq<char>>,
    b: bool,
)
    requires
        next.mods@ == cfg.batch_entries(ids, b),
        next.other == cfg.other,
    ensures
        next.missing_ids(ids) == cfg.missing_ids(ids),
        next.batch_entries(ids, b) == next.mods@,
{
    assert(next.mods@.len() == cfg.mods@.len());
    assert forall|i: int| 0 <= i < next.mods@.len() implies next.mods@[i].id == cfg.mods@[i].id by {}
    lemma_has_mod_same_ids(next, cfg);
    assert forall|i: int|
        0 <= i < ids.len() implies ((|id: Seq<char>| !next.has_mod(id))(ids[i]) == (
    |id: Seq<char>| !cfg.has_mod(id))(ids[i])) by {
        assert(next.has_mod(ids[i]) == cfg.has_mod(ids[i]));
    }
    lemma_filter_congruence(
        ids,
        |id: Seq<char>| !next.has_mod(id),
        |id: Seq<char>| !cfg.has_mod(id),
    );
    assert forall|i: int| 0 <= i < next.mods@.len() implies next.batch_entries(ids, b)[i]
        == next.mods@[i] by {}
    assert(next.batch_entries(ids, b) =~= next.mods@);
}

/// The final activation state of a reconciliation pass does not depend on
/// the order in which the presets are visited: reordering the collection
/// reconciles to exactly the same entries.
pub proof fn lemma_apply_presets_order_independent(cfg: ModCfg, ps1: Seq<Preset>, ps2: Seq<Preset>)
    requires
        ps1.to_multiset() == ps2.to_multiset(),
    ensures
        cfg.reconciled_entries(ps1) == cfg.reconciled_entries(ps2),
{
    broadcast use vstd::seq_lib::group_to_multiset_ensures;

    assert(ps1.len() == ps2.len()) by {
        assert(ps1.to_multiset().len() == ps1.len());
        assert(ps2.to_multiset().len() == ps2.len());
    }
    assert forall|id: Seq<char>|
        union_wants(ps1, cfg, id) == union_wants(ps2, cfg, id) by {
        if union_wants(ps1, cfg, id) {
            let k = choose|k: int|
                0 <= k < ps1.len() && preset_applies(#[trigger] ps1[k], cfg)
                    && ps1[k].mod_ids().contains(id);
            assert(ps1.contains(ps1[k]));
            assert(ps1.to_multiset().count(ps1[k]) > 0);
            assert(ps2.to_multiset().count(ps1[k]) > 0);
            assert(ps2.contains(ps1[k]));
            let w = choose|w: int| 0 <= w < ps2.len() && ps2[w] == ps1[k];
            assert(preset_applies(ps2[w], cfg) && ps2[w].mod_ids().contains(id));
            assert(union_wants(ps2, cfg, id));
        }
        if union_wants(ps2, cfg, id) {
            let k = choose|k: int|
                0 <= k < ps2.len() && preset_applies(#[trigger] ps2[k], cfg)
                    && ps2[k].mod_ids().contains(id);
            assert(ps2.contains(ps2[k]));
            assert(ps2.to_multiset().count(ps2[k]) > 0);
            assert(ps1.to_multiset().count(ps2[k]) > 0);
            assert(ps1.contains(ps2[k]));
            let w = choose|w: int| 0 <= w < ps1.len() && ps1[w] == ps2[k];
            assert(preset_applies(ps1[w], cfg) && ps1[w].mod_ids().contains(id));
            assert(union_wants(ps1, cfg, id));
        }
    }
    assert(cfg.reconciled_entries(ps1) =~= cfg.reconciled_entries(ps2));
}

/// A reconciliation pass never retracts: a mod that was active stays
/// active, and a mod named by no applying preset keeps its previous entry
/// exactly as it was.
pub proof fn lemma_apply_presets_never_retracts(cfg: ModCfg, presets: Seq<Preset>, i: int)
    requires
        0 <= i < cfg.mods@.len(),
    ensures
        cfg.mods@[i].active ==> cfg.reconciled_entries(presets)[i].active,
        !union_wants(presets, cfg, cfg.mods@[i].id@) ==> cfg.reconciled_entries(presets)[i]
            == cfg.mods@[i],
{
}

/// Registries with pointwise-equal entry ids know the same ids.
pub proof fn lemma_has_mod_same_ids(a: ModCfg, b: ModCfg)
    requires
        a.mods@.len() == b.mods@.len(),
        forall|i: int| 0 <= i < a.mods@.len() ==> a.mods@[i].id == b.mods@[i].id,
    ensures
        forall|x: Seq<char>| #![trigger a.has_mod(x)] #![trigger b.has_mod(x)]
            a.has_mod(x) <==> b.has_mod(x),
{
    assert forall|x: Seq<char>| #![trigger a.has_mod(x)] #![trigger b.has_mod(x)]
        a.has_mod(x) <==> b.has_mod(x) by {
        if a.has_mod(x) {
            let w = choose|w: int| 0 <= w < a.mods@.len() && #[trigger] a.mods@[w].id@ == x;
            assert(b.mods@[w].id@ == x);
        }
        if b.has_mod(x) {
            let w = choose|w: int| 0 <= w < b.mods@.len() && #[trigger] b.mods@[w].id@ == x;
            assert(a.mods@[w].id@ == x);
        }
    }
}

impl ModCfg {
    /// The ids of all tracked mods, in storage order.
    pub open spec fn ids(self) -> Seq<Seq<char>> {
        self.mods@.map_values(|m: Mod| m.id@)
    }

    /// Well-formedness: no two entries share an id.
    pub open spec fn wf(self) -> bool {
        forall|i: int, j: int|
            0 <= i < j < self.mods@.len() ==> self.mods@[i].id@ != self.mods@[j].id@
    }

    /// Whether some entry carries the given id.
    pub open spec fn has_mod(self, id: Seq<char>) -> bool {
        exists|i: int| 0 <= i < self.mods@.len() && #[trigger] self.mods@[i].id@ == id
    }

    /// The index of the entry carrying the given id.
    pub open spec fn idx_of(self, id: Seq<char>) -> int {
        choose|i: int| 0 <= i < self.mods@.len() && #[trigger] self.mods@[i].id@ == id
    }

    /// The entries after setting every entry whose id occurs in `ids` to
    /// activation state `b`, leaving all other entries untouched.
    pub open spec fn batch_entries(self, ids: Seq<Seq<char>>, b: bool) -> Seq<Mod> {
        batch_set(self.mods@, ids, b)
    }

    /// The requested ids that are unknown to this registry, in request
    /// order, duplicates kept.
    pub open spec fn missing_ids(self, ids: Seq<Seq<char>>) -> Seq<Seq<char>> {
        ids.filter(|id: Seq<char>| !self.has_mod(id))
    }

    /// The registry entries after a reconciliation pass: an entry is active
    /// exactly when it already was or some applying preset names it.
    pub open spec fn reconciled_entries(self, presets: Seq<Preset>) -> Seq<Mod> {
        self.mods@.map_values(
            |m: Mod|
                (Mod {
                    id: m.id,
                    active: m.active || union_wants(presets, self, m.id@),
                    other: m.other,
                }),
        )
    }

    /// Build a registry from loaded entries; refuses duplicate ids.
    #[verifier::loop_isolation(false)]
    pub fn new(mods: Vec<Mod>, other: HashMap<String, serde_json::Value>) -> (r: Option<ModCfg>)
        ensures
            match r {
                Some(cfg) => cfg.mods == mods && cfg.other == other && cfg.wf(),
                None => exists|i: int, j: int|
                    0 <= i < j < mods@.len() && mods@[i].id@ == mods@[j].id@,
            },
    {
        let n = mods.len();
        let mut i: usize = 0;
        while i < n
            invariant
                i <= n,
                n == mods@.len(),
                forall|a: int, b: int| 0 <= a < b < i ==> mods@[a].id@ != mods@[b].id@,
            decreases n - i,
        {
            let mut j: usize = 0;
            while j < i
                invariant
                    j <= i < n,
                    n == mods@.len(),
                    forall|a: int, b: int| 0 <= a < b < i ==> mods@[a].id@ != mods@[b].id@,
                    forall|a: int| 0 <= a < j ==> mods@[a].id@ != mods@[i as int].id@,
                decreases i - j,
            {
                if str_eq(mods[j].id.as_str(), mods[i].id.as_str()) {
                    return None;
                }
                j += 1;
            }
            i += 1;
        }
        Some(ModCfg { mods, other })
    }

    /// Get the active status of a mod, or `None` if the id is unknown.
    ///
    /// Absence is not an error at the query level; errors are reserved for
    /// mutation.
    #[verifier::loop_isolation(false)]
    pub fn is_mod_active(&self, mod_name: &str) -> (r: Option<bool>)
        requires
            self.wf(),
        ensures
            r == (if self.has_mod(mod_name@) {
                Some(self.mods@[self.idx_of(mod_name@)].active)
            } else {
                None::<bool>
            }),
    {
        let n = self.mods.len();
        let mut i: usize = 0;
        while i < n
            invariant
                i <= n,
                n == self.mods@.len(),
                forall|j: int| 0 <= j < i ==> self.mods@[j].id@ != mod_name@,
            decreases n - i,
        {
            if str_eq(self.mods[i].id.as_str(), mod_name) {
                proof {
                    assert(self.has_mod(mod_name@));
                    assert(self.idx_of(mod_name@) == i as int) by {
                        let k = self.idx_of(mod_name@);
                        assert(0 <= k < self.mods@.len() && self.mods@[k].id@ == mod_name@);
                    }
                }
                return Some(self.mods[i].active);
            }
            i += 1;
        }
        proof {
            assert(!self.has_mod(mod_name@));
        }
        None
    }

    /// Get the ids of all mods in the registry, in storage order.
    #[verifier::loop_isolation(false)]
    pub fn get_mods(&self) -> (r: Vec<String>)
        ensures
            r.deep_view() == self.ids(),
    {
        let mut out: Vec<String> = Vec::new();
        let n = self.mods.len();
        let mut i: usize = 0;
        while i < n
            invariant
                i <= n,
                n == self.mods@.len(),
                out.deep_view() == self.ids().take(i as int),
            decreases n - i,
        {
            let ghost pre = out;
            out.push(self.mods[i].id.clone());
            proof {
                lemma_deep_view_push(pre, out, out@[out@.len() - 1]);
                assert(self.ids().take(i + 1) =~= self.ids().take(i as int).push(
                    self.ids()[i as int],
                ));
            }
            i += 1;
        }
        proof {
            assert(self.ids().take(n as int) =~= self.ids());
        }
        out
    }

    /// Set one mod active or inactive; the registry is unchanged when the
    /// id is unknown.
    #[verifier::loop_isolation(false)]
    pub fn set_mod_active(&mut self, mod_name: &str, active: bool) -> (r: Result<()>)
        requires
            old(self).wf(),
        ensures
            final(self).wf(),
            (if old(self).has_mod(mod_name@) {
                &&& r is Ok
                &&& final(self).mods@ == old(self).batch_entries(seq![mod_name@], active)
                &&& final(self).other == old(self).other
            } else {
                &&& *final(self) == *old(self)
                &&& (r matches Err(Error::MissingMods { mods }) && mods.deep_view() == seq![
                    mod_name@,
                ])
            }),
    {
        let n = self.mods.len();
        let mut i: usize = 0;
        while i < n
            invariant
                i <= n,
                n == self.mods@.len(),
                *self == *old(self),
                forall|j: int| 0 <= j < i ==> self.mods@[j].id@ != mod_name@,
            decreases n - i,
        {
            if str_eq(self.mods[i].id.as_str(), mod_name) {
                let entry = vec_index_mut(&mut self.mods, i);
                entry.active = active;
                proof {
                    assert(old(self).has_mod(mod_name@));
                    assert forall|j: int|
                        0 <= j < self.mods@.len() implies self.mods@[j] == old(
                        self,
                    ).batch_entries(seq![mod_name@], active)[j] by {
                        if j != i as int {
                            assert(self.mods@[j] == old(self).mods@[j]);
                            assert(old(self).mods@[j].id@ != mod_name@);
                            assert(!seq![mod_name@].contains(old(self).mods@[j].id@));
                        } else {
                            assert(old(self).mods@[j].id@ == mod_name@);
                            assert(seq![mod_name@][0] == old(self).mods@[j].id@);
                            assert(seq![mod_name@].contains(old(self).mods@[j].id@));
                        }
                    }
                    assert(self.mods@ =~= old(self).batch_entries(seq![mod_name@], active));
                    assert(self.ids() =~= old(self).ids());
                }
                return Ok(());
            }
            i += 1;
        }
        let mut missing: Vec<String> = Vec::new();
        missing.push(mod_name.to_owned());
        proof {
            assert(!old(self).has_mod(mod_name@));
            assert(missing.deep_view() =~= seq![mod_name@]);
        }
        Err(Error::MissingMods { mods: missing })
    }

    /// Set several mods active or inactive, all or nothing.
    ///
    /// First every id is validated against the registry, accumulating all
    /// missing ids; if any is missing the call fails with exactly those ids,
    /// in request order, and the registry is completely unchanged. Only when
    /// every id is present is any entry mutated.
    #[verifier::loop_isolation(false)]
    pub fn set_mods_active(&mut self, mod_names: &[String], active: bool) -> (r: Result<()>)
        requires
            old(self).wf(),
        ensures
            final(self).wf(),
            (if old(self).missing_ids(mod_names.deep_view()).len() == 0 {
                &&& r is Ok
                &&& final(self).mods@ == old(self).batch_entries(mod_names.deep_view(), active)
                &&& final(self).other == old(self).other
            } else {
                &&& *final(self) == *old(self)
                &&& (r matches Err(Error::MissingMods { mods }) && mods.deep_view() == old(
                    self,
                ).missing_ids(mod_names.deep_view()))
            }),
    {
        let ghost pred = |id: Seq<char>| !old(self).has_mod(id);
        let mut missing: Vec<String> = Vec::new();
        let n = mod_names.len();
        let mut i: usize = 0;
        while i < n
            invariant
                i <= n,
                n == mod_names@.len(),
                *self == *old(self),
                missing.deep_view() == mod_names.deep_view().take(i as int).filter(pred),
            decreases n - i,
        {
            proof {
                assert(mod_names.deep_view().take(i + 1) =~= mod_names.deep_view().take(
                    i as int,
                ).push(mod_names.deep_view()[i as int]));
                crate::lemma_filter_push(
                    mod_names.deep_view().take(i as int),
                    mod_names.deep_view()[i as int],
                    pred,
                );
            }
            if self.is_mod_active(mod_names[i].as_str()).is_none() {
                let ghost pre = missing;
                missing.push(mod_names[i].clone());
                proof {
                    lemma_deep_view_push(pre, missing, missing@[missing@.len() - 1]);
                    assert(pred(mod_names.deep_view()[i as int]));
                }
            } else {
                proof {
                    assert(!pred(mod_names.deep_view()[i as int]));
                }
            }
            i += 1;
        }
        proof {
            assert(mod_names.deep_view().take(n as int) =~= mod_names.deep_view());
            assert(missing.deep_view() == old(self).missing_ids(mod_names.deep_view()));
        }
        if missing.len() > 0 {
            return Err(Error::MissingMods { mods: missing });
        }
        proof {
            assert(old(self).missing_ids(mod_names.deep_view()).len() == 0);
            assert forall|j: int| 0 <= j < mod_names.deep_view().len() implies old(self).has_mod(
                mod_names.deep_view()[j],
            ) by {
                if !old(self).has_mod(mod_names.deep_view()[j]) {
                    mod_names.deep_view().lemma_filter_contains(pred, j);
                }
            }
        }
        let mut k: usize = 0;
        while k < n
            invariant
                k <= n,
                n == mod_names@.len(),
                self.wf(),
                self.other == old(self).other,
                self.mods@ == batch_set(
                    old(self).mods@,
                    mod_names.deep_view().take(k as int),
                    active,
                ),
            decreases n - k,
        {
            proof {
                assert(self.mods@.len() == old(self).mods@.len());
                assert forall|j: int| 0 <= j < self.mods@.len() implies self.mods@[j].id == old(
                    self,
                ).mods@[j].id by {}
                assert(old(self).has_mod(mod_names.deep_view()[k as int]));
                let w = choose|w: int|
                    0 <= w < old(self).mods@.len() && #[trigger] old(self).mods@[w].id@
                        == mod_names.deep_view()[k as int];
                assert(self.mods@[w].id@ == mod_names.deep_view()[k as int]);
                assert(self.has_mod(mod_names.deep_view()[k as int]));
            }
            let ghost mid = *self;
            let res = self.set_mod_active(mod_names[k].as_str(), active);
            proof {
                assert(res is Ok);
                lemma_batch_set_step(
                    old(self).mods@,
                    mod_names.deep_view().take(k as int),
                    mod_names.deep_view()[k as int],
                    active,
                );
                assert(mod_names.deep_view().take(k + 1) =~= mod_names.deep_view().take(
                    k as int,
                ).push(mod_names.deep_view()[k as int]));
            }
            k += 1;
        }
        proof {
            assert(mod_names.deep_view().take(n as int) =~= mod_names.deep_view());
        }
        Ok(())
    }

    /// Set every mod in the registry active or inactive.
    pub fn set_all_mods_active(&mut self, active: bool) -> (r: Result<()>)
        requires
            old(self).wf(),
        ensures
            final(self).wf(),
            r is Ok,
            final(self).mods@ == old(self).batch_entries(old(self).ids(), active),
            final(self).other == old(self).other,
            forall|i: int|
                0 <= i < final(self).mods@.len() ==> final(self).mods@[i].active == active,
    {
        let ids = self.get_mods();
        let ids_slice = ids.as_slice();
        proof {
            assert(ids_slice.deep_view() =~= ids.deep_view());
            assert forall|j: int| 0 <= j < old(self).ids().len() implies !(|id: Seq<char>| !old(
                self,
            ).has_mod(id))(old(self).ids()[j]) by {
                assert(old(self).mods@[j].id@ == old(self).ids()[j]);
                assert(old(self).has_mod(old(self).ids()[j]));
            }
            lemma_filter_all_false(
                old(self).ids(),
                |id: Seq<char>| !old(self).has_mod(id),
            );
            assert(old(self).missing_ids(old(self).ids()).len() == 0);
        }
        let r = self.set_mods_active(ids_slice, active);
        proof {
            assert forall|i: int| 0 <= i < self.mods@.len() implies self.mods@[i].active
                == active by {
                assert(old(self).ids()[i] == old(self).mods@[i].id@);
                assert(old(self).ids().contains(old(self).mods@[i].id@));
            }
        }
        r
    }

    /// Recompute the registry so that every mod named by any enabled preset
    /// is active, tolerating presets that reference unknown ids.
    ///
    /// Each enabled preset is applied in one all-or-nothing batch; a preset
    /// naming unknown ids fails alone and never blocks the others. The pass
    /// only ever activates mods, and the final activation state does not
    /// depend on the order of the presets. When any preset fails, the call
    /// reports all missing ids and all failed preset names together.
    #[verifier::loop_isolation(false)]
    pub fn apply_presets(&mut self, presets: &[Preset]) -> (r: Result<()>)
        requires
            old(self).wf(),
        ensures
            final(self).wf(),
            final(self).mods@ == old(self).reconciled_entries(presets@),
            final(self).other == old(self).other,
            (if (forall|k: int|
                0 <= k < presets@.len() ==> ((#[trigger] presets@[k]).enabled ==> preset_applies(
                    presets@[k],
                    *old(self),
                ))) {
                r is Ok
            } else {
                (r matches Err(Error::PresetsFailed { mods, presets: failed }) && {
                    &&& failed.deep_view().no_duplicates()
                    &&& (forall|nm: Seq<char>|
                        #[trigger] failed.deep_view().contains(nm) <==> preset_failed(
                            presets@,
                            *old(self),
                            nm,
                        ))
                    &&& mods.deep_view().no_duplicates()
                    &&& (forall|id: Seq<char>|
                        #[trigger] mods.deep_view().contains(id) <==> missing_from(
                            presets@,
                            *old(self),
                            id,
                        ))
                })
            }),
    {
        let mut missing_mods: Vec<String> = Vec::new();
        let mut failed_presets: Vec<String> = Vec::new();
        let n = presets.len();
        let mut k: usize = 0;
        while k < n
            invariant
                k <= n,
                n == presets@.len(),
                self.wf(),
                self.other == old(self).other,
                self.mods@ == old(self).reconciled_entries(presets@.take(k as int)),
                missing_mods.deep_view().no_duplicates(),
                forall|id: Seq<char>|
                    #[trigger] missing_mods.deep_view().contains(id) <==> missing_from(
                        presets@.take(k as int),
                        *old(self),
                        id,
                    ),
                failed_presets.deep_view().no_duplicates(),
                forall|nm: Seq<char>|
                    #[trigger] failed_presets.deep_view().contains(nm) <==> preset_failed(
                        presets@.take(k as int),
                        *old(self),
                        nm,
                    ),
            decreases n - k,
        {
            let ghost mid = *self;
            proof {
                assert(mid.mods@.len() == old(self).mods@.len());
                assert forall|i: int| 0 <= i < mid.mods@.len() implies mid.mods@[i].id == old(
                    self,
                ).mods@[i].id by {}
                lemma_has_mod_same_ids(mid, *old(self));
                assert(presets@.take(k + 1) =~= presets@.take(k as int).push(presets@[k as int]));
            }
            if presets[k].is_enabled() {
                let pm = presets[k].get_mods().as_slice();
                proof {
                    assert(pm.deep_view() =~= presets@[k as int].mod_ids());
                }
                match self.set_mods_active(pm, true) {
                    Ok(()) => {
                        proof {
                            assert forall|j: int|
                                0 <= j < presets@[k as int].mod_ids().len() implies old(
                                self,
                            ).has_mod(#[trigger] presets@[k as int].mod_ids()[j]) by {
                                if !mid.has_mod(pm.deep_view()[j]) {
                                    pm.deep_view().lemma_filter_contains(
                                        |id: Seq<char>| !mid.has_mod(id),
                                        j,
                                    );
                                }
                            }
                            assert(preset_applies(presets@[k as int], *old(self)));
                            assert forall|i: int| 0 <= i < self.mods@.len() implies self.mods@[i]
                                == old(self).reconciled_entries(presets@.take(k + 1))[i] by {
                                lemma_union_wants_push(
                                    presets@.take(k as int),
                                    presets@[k as int],
                                    *old(self),
                                    old(self).mods@[i].id@,
                                );
                                assert(mid.mods@[i].id == old(self).mods@[i].id);
                            }
                            assert(self.mods@ =~= old(self).reconciled_entries(
                                presets@.take(k + 1),
                            ));
                            assert forall|id: Seq<char>|
                                #[trigger] missing_mods.deep_view().contains(id)
                                    <==> missing_from(
                                    presets@.take(k + 1),
                                    *old(self),
                                    id,
                                ) by {
                                lemma_missing_from_push(
                                    presets@.take(k as int),
                                    presets@[k as int],
                                    *old(self),
                                    id,
                                );
                                if presets@[k as int].mod_ids().contains(id) {
                                    let w = choose|w: int|
                                        0 <= w < presets@[k as int].mod_ids().len()
                                            && presets@[k as int].mod_ids()[w] == id;
                                    assert(old(self).has_mod(presets@[k as int].mod_ids()[w]));
                                }
                            }
                            assert forall|nm: Seq<char>|
                                #[trigger] failed_presets.deep_view().contains(nm)
                                    <==> preset_failed(
                                    presets@.take(k + 1),
                                    *old(self),
                                    nm,
                                ) by {
                                lemma_preset_failed_push(
                                    presets@.take(k as int),
                                    presets@[k as int],
                                    *old(self),
                                    nm,
                                );
                            }
                        }
                    },
                    Err(Error::MissingMods { mods: batch_missing }) => {
                        proof {
                            assert(*self == mid);
                            assert(mid.missing_ids(pm.deep_view()).len() > 0);
                            lemma_filter_membership(
                                pm.deep_view(),
                                |id: Seq<char>| !mid.has_mod(id),
                                mid.missing_ids(pm.deep_view())[0],
                            );
                            assert(pm.deep_view().contains(mid.missing_ids(pm.deep_view())[0]));
                            let w = choose|w: int|
                                0 <= w < pm.deep_view().len() && pm.deep_view()[w]
                                    == mid.missing_ids(pm.deep_view())[0];
                            assert(!old(self).has_mod(presets@[k as int].mod_ids()[w]));
                            assert(!preset_applies(presets@[k as int], *old(self)));
                            assert forall|i: int| 0 <= i < self.mods@.len() implies self.mods@[i]
                                == old(self).reconciled_entries(presets@.take(k + 1))[i] by {
                                lemma_union_wants_push(
                                    presets@.take(k as int),
                                    presets@[k as int],
                                    *old(self),
                                    old(self).mods@[i].id@,
                                );
                            }
                            assert(self.mods@ =~= old(self).reconciled_entries(
                                presets@.take(k + 1),
                            ));
                            assert forall|id: Seq<char>|
                                #[trigger] batch_missing.deep_view().contains(id) implies (
                            presets@[k as int].mod_ids().contains(id) && !old(self).has_mod(
                                id,
                            )) by {
                                lemma_filter_membership(
                                    pm.deep_view(),
                                    |id2: Seq<char>| !mid.has_mod(id2),
                                    id,
                                );
                            }
                            assert forall|id: Seq<char>|
                                presets@[k as int].mod_ids().contains(id) && !old(self).has_mod(
                                    id,
                                ) implies #[trigger] batch_missing.deep_view().contains(id) by {
                                lemma_filter_membership(
                                    pm.deep_view(),
                                    |id2: Seq<char>| !mid.has_mod(id2),
                                    id,
                                );
                            }
                        }
                        let m_len = batch_missing.len();
                        let mut t: usize = 0;
                        while t < m_len
                            invariant
                                t <= m_len,
                                m_len == batch_missing@.len(),
                                missing_mods.deep_view().no_duplicates(),
                                forall|id: Seq<char>|
                                    #[trigger] missing_mods.deep_view().contains(id) <==> (
                                    missing_from(presets@.take(k as int), *old(self), id)
                                        || batch_missing.deep_view().take(t as int).contains(id)),
                            decreases m_len - t,
                        {
                            proof {
                                assert(batch_missing.deep_view().take(t + 1)
                                    =~= batch_missing.deep_view().take(t as int).push(
                                    batch_missing.deep_view()[t as int],
                                ));
                            }
                            if !slice_contains_str(
                                missing_mods.as_slice(),
                                batch_missing[t].as_str(),
                            ) {
                                let ghost pre = missing_mods;
                                missing_mods.push(batch_missing[t].clone());
                                proof {
                                    lemma_deep_view_push(
                                        pre,
                                        missing_mods,
                                        missing_mods@[missing_mods@.len() - 1],
                                    );
                                    lemma_no_dup_push(
                                        pre.deep_view(),
                                        batch_missing.deep_view()[t as int],
                                    );
                                    assert forall|id: Seq<char>|
                                        #[trigger] missing_mods.deep_view().contains(id) <==> (
                                    missing_from(presets@.take(k as int), *old(self), id)
                                        || batch_missing.deep_view().take(t + 1).contains(
                                        id,
                                    )) by {
                                        lemma_contains_push(
                                            pre.deep_view(),
                                            batch_missing.deep_view()[t as int],
                                            id,
                                        );
                                        lemma_contains_push(
                                            batch_missing.deep_view().take(t as int),
                                            batch_missing.deep_view()[t as int],
                                            id,
                                        );
                                    }
                                }
                            } else {
                                proof {
                                    assert forall|id: Seq<char>|
                                        #[trigger] missing_mods.deep_view().contains(id) <==> (
                                    missing_from(presets@.take(k as int), *old(self), id)
                                        || batch_missing.deep_view().take(t + 1).contains(
                                        id,
                                    )) by {
                                        lemma_contains_push(
                                            batch_missing.deep_view().take(t as int),
                                            batch_missing.deep_view()[t as int],
                                            id,
                                        );
                                    }
                                }
                            }
                            t += 1;
                        }
                        proof {
                            assert(batch_missing.deep_view().take(m_len as int)
                                =~= batch_missing.deep_view());
                            assert forall|id: Seq<char>|
                                #[trigger] missing_mods.deep_view().contains(id) <==> missing_from(
                                presets@.take(k + 1),
                                *old(self),
                                id,
                            ) by {
                                lemma_missing_from_push(
                                    presets@.take(k as int),
                                    presets@[k as int],
                                    *old(self),
                                    id,
                                );
                            }
                        }
                        let nm = presets[k].get_name();
                        if !slice_contains_str(failed_presets.as_slice(), nm.as_str()) {
                            let ghost pre = failed_presets;
                            failed_presets.push(nm.clone());
                            proof {
                                lemma_deep_view_push(
                                    pre,
                                    failed_presets,
                                    failed_presets@[failed_presets@.len() - 1],
                                );
                                lemma_no_dup_push(pre.deep_view(), nm@);
                                assert forall|x: Seq<char>|
                                    #[trigger] failed_presets.deep_view().contains(x)
                                        <==> preset_failed(
                                        presets@.take(k + 1),
                                        *old(self),
                                        x,
                                    ) by {
                                    lemma_contains_push(pre.deep_view(), nm@, x);
                                    lemma_preset_failed_push(
                                        presets@.take(k as int),
                                        presets@[k as int],
                                        *old(self),
                                        x,
                                    );
                                }
                            }
                        } else {
                            proof {
                                assert forall|x: Seq<char>|
                                    #[trigger] failed_presets.deep_view().contains(x)
                                        <==> preset_failed(
                                        presets@.take(k + 1),
                                        *old(self),
                                        x,
                                    ) by {
                                    lemma_preset_failed_push(
                                        presets@.take(k as int),
                                        presets@[k as int],
                                        *old(self),
                                        x,
                                    );
                                }
                            }
                        }
                    },
                    Err(e) => {
                        // The batch operation only ever fails with
                        // MissingMods; this arm is provably unreachable.
                        proof {
                            assert(false);
                        }
                        return Err(e);
                    },
                }
            } else {
                proof {
                    assert(!presets@[k as int].enabled);
                    assert forall|i: int| 0 <= i < self.mods@.len() implies self.mods@[i] == old(
                        self,
                    ).reconciled_entries(presets@.take(k + 1))[i] by {
                        lemma_union_wants_push(
                            presets@.take(k as int),
                            presets@[k as int],
                            *old(self),
                            old(self).mods@[i].id@,
                        );
                    }
                    assert(self.mods@ =~= old(self).reconciled_entries(presets@.take(k + 1)));
                    assert forall|id: Seq<char>|
                        #[trigger] missing_mods.deep_view().contains(id) <==> missing_from(
                        presets@.take(k + 1),
                        *old(self),
                        id,
                    ) by {
                        lemma_missing_from_push(
                            presets@.take(k as int),
                            presets@[k as int],
                            *old(self),
                            id,
                        );
                    }
                    assert forall|nm: Seq<char>|
                        #[trigger] failed_presets.deep_view().contains(nm) <==> preset_failed(
                        presets@.take(k + 1),
                        *old(self),
                        nm,
                    ) by {
                        lemma_preset_failed_push(
                            presets@.take(k as int),
                            presets@[k as int],
                            *old(self),
                            nm,
                        );
                    }
                }
            }
            k += 1;
        }
        proof {
            assert(presets@.take(n as int) =~= presets@);
        }
        if failed_presets.len() > 0 {
            proof {
                assert(failed_presets.deep_view().len() > 0);
                assert(failed_presets.deep_view().contains(failed_presets.deep_view()[0]));
                assert(preset_failed(presets@, *old(self), failed_presets.deep_view()[0]));
            }
            return Err(Error::PresetsFailed { mods: missing_mods, presets: failed_presets });
        }
        proof {
            assert forall|k0: int|
                0 <= k0 < presets@.len() && (#[trigger] presets@[k0]).enabled implies preset_applies(
                presets@[k0],
                *old(self),
            ) by {
                if !preset_applies(presets@[k0], *old(self)) {
                    assert(preset_failed(presets@, *old(self), presets@[k0].name@));
                    assert(failed_presets.deep_view().contains(presets@[k0].name@));
                }
            }
        }
        Ok(())
    }
}

} // verus!
