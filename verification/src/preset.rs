//! Named groups of mod ids that can be enabled or disabled as a unit.

use vstd::prelude::*;

use crate::game::batch_set;
use crate::game::lemma_batch_set_step;
use crate::game::lemma_has_mod_same_ids;
use crate::game::ModCfg;
use crate::lemma_contains_concat;
use crate::lemma_contains_push;
use crate::lemma_deep_view_push;
use crate::lemma_filter_congruence;
use crate::lemma_filter_push;
use crate::slice_contains_str;
use crate::str_eq;
use crate::Error;
use crate::Result;

verus! {

/// Ids that do not occur in a preset's list contribute nothing to a
/// removal: removing `to_remove + absent` leaves exactly what removing
/// `to_remove` alone leaves, whenever no id of `absent` occurs in the list.
pub proof fn lemma_remove_mods_ignores_absent(
    mods: Seq<Seq<char>>,
    to_remove: Seq<Seq<char>>,
    absent: Seq<Seq<char>>,
)
    requires
        forall|j: int| 0 <= j < absent.len() ==> !mods.contains(#[trigger] absent[j]),
    ensures
        mods.filter(|m: Seq<char>| !(to_remove + absent).contains(m)) == mods.filter(
            |m: Seq<char>| !to_remove.contains(m),
        ),
{
    assert forall|i: int|
        0 <= i < mods.len() implies ((|m: Seq<char>| !(to_remove + absent).contains(m))(mods[i])
        == (|m: Seq<char>| !to_remove.contains(m))(mods[i])) by {
        lemma_contains_concat(to_remove, absent, mods[i]);
        if absent.contains(mods[i]) {
            let w = choose|w: int| 0 <= w < absent.len() && absent[w] == mods[i];
            assert(mods.contains(absent[w]));
        }
    }
    lemma_filter_congruence(
        mods,
        |m: Seq<char>| !(to_remove + absent).contains(m),
        |m: Seq<char>| !to_remove.contains(m),
    );
}

/// A named, user-defined group of mod ids with an enabled flag.
///
/// The mod list is ordered and may contain duplicates; the order carries no
/// activation-priority meaning. The enabled flag records intent: enabling a
/// preset takes effect only once the registry reconciles all presets.
pub struct Preset {
    /// The name of the preset.
    pub name: String,
    /// The mods in the preset.
    pub mods: Vec<String>,
    /// Whether the preset is enabled.
    pub enabled: bool,
}

impl Preset {
    /// The ids named by this preset, as sequences of characters.
    pub open spec fn mod_ids(self) -> Seq<Seq<char>> {
        self.mods.deep_view()
    }

    /// Create a new preset, initially disabled.
    pub fn new(name: String, mods: Vec<String>) -> (r: Preset)
        ensures
            r.name == name,
            r.mods == mods,
            !r.enabled,
    {
        Preset { name, mods, enabled: false }
    }

    /// Append one mod id to the preset's list.
    pub fn add_mod(&mut self, mod_name: &str)
        ensures
            final(self).name == old(self).name,
            final(self).enabled == old(self).enabled,
            final(self).mod_ids() == old(self).mod_ids().push(mod_name@),
    {
        let ghost pre = self.mods;
        self.mods.push(mod_name.to_owned());
        proof {
            lemma_deep_view_push(pre, self.mods, self.mods@[self.mods@.len() - 1]);
        }
    }

    /// Append several mod ids to the preset's list, in order.
    pub fn add_mods(&mut self, mods: &[String])
        ensures
            final(self).name == old(self).name,
            final(self).enabled == old(self).enabled,
            final(self).mod_ids() == old(self).mod_ids() + mods.deep_view(),
    {
        let n = mods.len();
        let mut i: usize = 0;
        while i < n
            invariant
                i <= n,
                n == mods@.len(),
                self.name == old(self).name,
                self.enabled == old(self).enabled,
                self.mod_ids() == old(self).mod_ids() + mods.deep_view().take(i as int),
            decreases n - i,
        {
            let ghost pre = self.mods;
            self.mods.push(mods[i].clone());
            proof {
                lemma_deep_view_push(pre, self.mods, self.mods@[self.mods@.len() - 1]);
                assert(self.mods@[self.mods@.len() - 1]@ == mods.deep_view()[i as int]);
                assert(mods.deep_view().take(i + 1) =~= mods.deep_view().take(i as int).push(
                    mods.deep_view()[i as int],
                ));
                Seq::push_distributes_over_add(
                    old(self).mod_ids(),
                    mods.deep_view().take(i as int),
                    mods.deep_view()[i as int],
                );
            }
            i += 1;
        }
        proof {
            assert(mods.deep_view().take(n as int) =~= mods.deep_view());
        }
    }

    /// Remove every occurrence of the given mod id from the preset's list.
    ///
    /// Removing an id that is not present is a no-op, not an error.
    #[verifier::loop_isolation(false)]
    pub fn remove_mod(&mut self, mod_name: &str)
        ensures
            final(self).name == old(self).name,
            final(self).enabled == old(self).enabled,
            final(self).mod_ids() == old(self).mod_ids().filter(|m: Seq<char>| m != mod_name@),
    {
        let ghost pred = |m: Seq<char>| m != mod_name@;
        let mut kept: Vec<String> = Vec::new();
        let n = self.mods.len();
        let mut i: usize = 0;
        while i < n
            invariant
                i <= n,
                n == self.mods@.len(),
                *self == *old(self),
                kept.deep_view() == old(self).mod_ids().take(i as int).filter(pred),
            decreases n - i,
        {
            proof {
                assert(old(self).mod_ids().take(i + 1) =~= old(self).mod_ids().take(
                    i as int,
                ).push(old(self).mod_ids()[i as int]));
                lemma_filter_push(
                    old(self).mod_ids().take(i as int),
                    old(self).mod_ids()[i as int],
                    pred,
                );
                assert(self.mods@[i as int]@ == old(self).mod_ids()[i as int]);
            }
            if !str_eq(self.mods[i].as_str(), mod_name) {
                let ghost pre = kept;
                kept.push(self.mods[i].clone());
                proof {
                    lemma_deep_view_push(pre, kept, kept@[kept@.len() - 1]);
                    assert(kept@[kept@.len() - 1]@ == old(self).mod_ids()[i as int]);
                    assert(pred(old(self).mod_ids()[i as int]));
                }
            } else {
                proof {
                    assert(!pred(old(self).mod_ids()[i as int]));
                }
            }
            i += 1;
        }
        proof {
            assert(old(self).mod_ids().take(n as int) =~= old(self).mod_ids());
        }
        self.mods = kept;
    }

    /// Remove every occurrence of each of the given mod ids from the
    /// preset's list.
    ///
    /// Ids that are not in the preset are ignored; listing them is harmless.
    #[verifier::loop_isolation(false)]
    pub fn remove_mods(&mut self, mods: &[String])
        ensures
            final(self).name == old(self).name,
            final(self).enabled == old(self).enabled,
            final(self).mod_ids() == old(self).mod_ids().filter(
                |m: Seq<char>| !mods.deep_view().contains(m),
            ),
    {
        let ghost pred = |m: Seq<char>| !mods.deep_view().contains(m);
        let mut kept: Vec<String> = Vec::new();
        let n = self.mods.len();
        let mut i: usize = 0;
        while i < n
            invariant
                i <= n,
                n == self.mods@.len(),
                *self == *old(self),
                kept.deep_view() == old(self).mod_ids().take(i as int).filter(pred),
            decreases n - i,
        {
            proof {
                assert(old(self).mod_ids().take(i + 1) =~= old(self).mod_ids().take(
                    i as int,
                ).push(old(self).mod_ids()[i as int]));
                lemma_filter_push(
                    old(self).mod_ids().take(i as int),
                    old(self).mod_ids()[i as int],
                    pred,
                );
                assert(self.mods@[i as int]@ == old(self).mod_ids()[i as int]);
            }
            if !slice_contains_str(mods, self.mods[i].as_str()) {
                let ghost pre = kept;
                kept.push(self.mods[i].clone());
                proof {
                    lemma_deep_view_push(pre, kept, kept@[kept@.len() - 1]);
                    assert(kept@[kept@.len() - 1]@ == old(self).mod_ids()[i as int]);
                    assert(pred(old(self).mod_ids()[i as int]));
                }
            } else {
                proof {
                    assert(!pred(old(self).mod_ids()[i as int]));
                }
            }
            i += 1;
        }
        proof {
            assert(old(self).mod_ids().take(n as int) =~= old(self).mod_ids());
        }
        self.mods = kept;
    }

    /// Disable the preset, eagerly deactivating every mod it names in the
    /// given registry.
    ///
    /// This is deliberately asymmetric with [`Preset::enable`]: enabling
    /// only records intent, while disabling acts on the registry at once. A
    /// later reconciliation pass can safely re-activate mods that belong to
    /// other still-enabled presets, but a merely deferred disable could not
    /// be undone safely.
    ///
    /// On failure the deactivation is all-or-nothing: both the registry and
    /// this preset's enabled flag are left unchanged.
    pub fn disable(&mut self, mod_config: &mut ModCfg) -> (r: Result<()>)
        requires
            old(mod_config).wf(),
        ensures
            final(mod_config).wf(),
            (if old(mod_config).missing_ids(old(self).mod_ids()).len() == 0 {
                &&& r is Ok
                &&& final(self).name == old(self).name
                &&& final(self).mods == old(self).mods
                &&& !final(self).enabled
                &&& final(mod_config).mods@ == old(mod_config).batch_entries(
                    old(self).mod_ids(),
                    false,
                )
                &&& final(mod_config).other == old(mod_config).other
            } else {
                &&& *final(self) == *old(self)
                &&& *final(mod_config) == *old(mod_config)
                &&& (r matches Err(Error::MissingMods { mods }) && mods.deep_view() == old(
                    mod_config,
                ).missing_ids(old(self).mod_ids()))
            }),
    {
        let mods_slice = self.mods.as_slice();
        proof {
            assert(mods_slice.deep_view() =~= old(self).mod_ids());
        }
        match mod_config.set_mods_active(mods_slice, false) {
            Ok(()) => {
                self.enabled = false;
                Ok(())
            },
            Err(e) => Err(e),
        }
    }

    /// Force-disable the preset: mark it disabled and deactivate each of its
    /// mods individually, ignoring ids the registry does not know.
    ///
    /// Unlike [`Preset::disable`] this cannot fail; it is the recovery path
    /// for a preset that reconciliation has reported as invalid, where some
    /// of its mods may no longer exist and best-effort cleanup is wanted.
    #[verifier::loop_isolation(false)]
    pub fn force_disable(&mut self, mod_config: &mut ModCfg)
        requires
            old(mod_config).wf(),
        ensures
            final(mod_config).wf(),
            final(self).name == old(self).name,
            final(self).mods == old(self).mods,
            !final(self).enabled,
            final(mod_config).mods@ == old(mod_config).batch_entries(old(self).mod_ids(), false),
            final(mod_config).other == old(mod_config).other,
    {
        self.enabled = false;
        let n = self.mods.len();
        let mut i: usize = 0;
        while i < n
            invariant
                i <= n,
                n == self.mods@.len(),
                self.name == old(self).name,
                self.mods == old(self).mods,
                !self.enabled,
                mod_config.wf(),
                mod_config.other == old(mod_config).other,
                mod_config.mods@ == batch_set(
                    old(mod_config).mods@,
                    old(self).mod_ids().take(i as int),
                    false,
                ),
            decreases n - i,
        {
            let ghost mid = *mod_config;
            proof {
                assert(mid.mods@.len() == old(mod_config).mods@.len());
                assert forall|j: int| 0 <= j < mid.mods@.len() implies mid.mods@[j].id == old(
                    mod_config,
                ).mods@[j].id by {}
                lemma_has_mod_same_ids(mid, *old(mod_config));
                assert(old(self).mod_ids().take(i + 1) =~= old(self).mod_ids().take(
                    i as int,
                ).push(old(self).mod_ids()[i as int]));
                assert(self.mods@[i as int]@ == old(self).mod_ids()[i as int]);
            }
            let _ = mod_config.set_mod_active(self.mods[i].as_str(), false);
            proof {
                if mid.has_mod(old(self).mod_ids()[i as int]) {
                    lemma_batch_set_step(
                        old(mod_config).mods@,
                        old(self).mod_ids().take(i as int),
                        old(self).mod_ids()[i as int],
                        false,
                    );
                } else {
                    assert forall|j: int| 0 <= j < mod_config.mods@.len() implies
                        mod_config.mods@[j] == batch_set(
                        old(mod_config).mods@,
                        old(self).mod_ids().take(i + 1),
                        false,
                    )[j] by {
                        lemma_contains_push(
                            old(self).mod_ids().take(i as int),
                            old(self).mod_ids()[i as int],
                            old(mod_config).mods@[j].id@,
                        );
                        assert(old(mod_config).mods@[j].id@ != old(self).mod_ids()[i as int]);
                    }
                    assert(mod_config.mods@ =~= batch_set(
                        old(mod_config).mods@,
                        old(self).mod_ids().take(i + 1),
                        false,
                    ));
                }
            }
            i += 1;
        }
        proof {
            assert(old(self).mod_ids().take(n as int) =~= old(self).mod_ids());
        }
    }

    /// Mark the preset as enabled.
    ///
    /// This records intent only; no registry is touched until the next
    /// reconciliation pass.
    pub fn enable(&mut self)
        ensures
            final(self).name == old(self).name,
            final(self).mods == old(self).mods,
            final(self).enabled,
    {
        self.enabled = true;
    }

    /// Get the enabled status of the preset.
    pub fn is_enabled(&self) -> (r: bool)
        ensures
            r == self.enabled,
    {
        self.enabled
    }

    /// Get the list of mods in the preset.
    pub fn get_mods(&self) -> (r: &Vec<String>)
        ensures
            r == self.mods,
    {
        &self.mods
    }

    /// Get the name of the preset.
    pub fn get_name(&self) -> (r: &String)
        ensures
            r == self.name,
    {
        &self.name
    }
}

} // verus!
