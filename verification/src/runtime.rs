//! The runtime registry: maps 16-bit instance identifiers to running
//! proxy instances for the control-plane calls. Running an instance
//! inserts it, shutdown removes it, reload looks it up.

use vstd::prelude::*;

use crate::errors::Error;
use crate::types::str_eq;

verus! {

/// One running instance: its identifier and the configuration file it
/// was started from, or nothing for an instance started from an inline
/// configuration.
#[derive(Debug)]
pub struct Instance {
    pub id: u16,
    pub config_path: Option<String>,
}

/// The instance occurs in the table.
pub open spec fn instance_in(es: Seq<Instance>, e: Instance) -> bool {
    exists|j: int| 0 <= j < es.len() && es[j] == e
}

/// No two instances share an identifier.
pub open spec fn unique_ids(es: Seq<Instance>) -> bool {
    forall|i: int, j: int| 0 <= i < j < es.len() ==> es[i].id != es[j].id
}

/// The process-wide table of running instances. The embedder holds it
/// behind its process-global lock; the rules below say what each
/// control call does to it.
#[derive(Debug)]
pub struct RuntimeManager {
    pub instances: Vec<Instance>,
}

impl RuntimeManager {
    pub open spec fn wf(self) -> bool {
        unique_ids(self.instances@)
    }

    /// Some instance carries the identifier.
    pub open spec fn has_instance(self, id: u16) -> bool {
        exists|i: int| 0 <= i < self.instances@.len() && self.instances@[i].id == id
    }

    /// The configuration path of the instance carrying the identifier;
    /// meaningful when one does.
    pub open spec fn path_of(self, id: u16) -> Option<String> {
        self.instances@[choose|i: int|
            0 <= i < self.instances@.len() && self.instances@[i].id == id].config_path
    }

    pub fn new() -> (m: RuntimeManager)
        ensures
            m.wf(),
            m.instances@.len() == 0,
    {
        RuntimeManager { instances: Vec::new() }
    }

    /// Registers a starting instance. A second instance under a taken
    /// identifier is refused: the caller gets the runtime-manager
    /// error, and the table stays as it was.
    pub fn run_insert(&mut self, id: u16, config_path: Option<String>) -> (r: Result<(), Error>)
        requires
            old(self).wf(),
        ensures
            final(self).wf(),
            r is Ok <==> !old(self).has_instance(id),
            r is Err ==> final(self).instances@ == old(self).instances@ && (r matches Err(e)
                && e is RuntimeManager),
            r is Ok ==> final(self).instances@ == old(self).instances@.push(
                Instance { id, config_path },
            ),
    {
        let mut i: usize = 0;
        let n = self.instances.len();
        while i < n
            invariant
                i <= n,
                n == self.instances@.len(),
                self.instances@ == old(self).instances@,
                unique_ids(self.instances@),
                forall|j: int| 0 <= j < i ==> self.instances@[j].id != id,
            decreases n - i,
        {
            if self.instances[i].id == id {
                return Err(Error::RuntimeManager);
            }
            i += 1;
        }
        self.instances.push(Instance { id, config_path });
        proof {
            assert forall|a: int, b: int|
                0 <= a < b < self.instances@.len() implies self.instances@[a].id
                != self.instances@[b].id by {
                if b < old(self).instances@.len() {
                    assert(self.instances@[a] == old(self).instances@[a]);
                    assert(self.instances@[b] == old(self).instances@[b]);
                } else {
                    assert(self.instances@[a] == old(self).instances@[a]);
                }
            }
        }
        Ok(())
    }

    /// Removes a stopping instance, reporting whether it was
    /// registered.
    pub fn shutdown_remove(&mut self, id: u16) -> (r: bool)
        requires
            old(self).wf(),
        ensures
            final(self).wf(),
            r == old(self).has_instance(id),
            !final(self).has_instance(id),
            forall|i: int|
                0 <= i < final(self).instances@.len() ==> exists|j: int|
                    0 <= j < old(self).instances@.len() && #[trigger] final(self).instances@[i]
                        == old(self).instances@[j],
            // only the named instance is removed: every other one stays
            forall|i: int|
                0 <= i < old(self).instances@.len() && #[trigger] old(self).instances@[i].id
                    != id ==> instance_in(final(self).instances@, old(self).instances@[i]),
    {
        let ghost pre = self.instances@;
        let mut kept: Vec<Instance> = Vec::new();
        let mut found = false;
        let mut i: usize = 0;
        let n = self.instances.len();
        while i < n
            invariant
                i <= n,
                n == self.instances@.len(),
                self.instances@ == pre,
                unique_ids(pre),
                unique_ids(kept@),
                forall|a: int| 0 <= a < kept@.len() ==> #[trigger] kept@[a].id != id,
                forall|a: int|
                    0 <= a < kept@.len() ==> exists|b: int|
                        0 <= b < i && #[trigger] kept@[a] == pre[b],
                forall|b: int|
                    0 <= b < i && #[trigger] pre[b].id != id ==> instance_in(kept@, pre[b]),
                found <==> exists|b: int| 0 <= b < i && pre[b].id == id,
            decreases n - i,
        {
            let inst = Instance {
                id: self.instances[i].id,
                config_path: match &self.instances[i].config_path {
                    Some(p) => Some(p.clone()),
                    None => None,
                },
            };
            if inst.id == id {
                found = true;
            } else {
                proof {
                    assert forall|a: int| 0 <= a < kept@.len() implies kept@[a].id != inst.id by {
                        let b = choose|b: int| 0 <= b < i && kept@[a] == pre[b];
                        assert(pre[b].id != pre[i as int].id);
                    }
                    assert(exists|b: int| 0 <= b < i + 1 && #[trigger] pre[b] == pre[i as int]);
                }
                let ghost kept0 = kept@;
                kept.push(inst);
                proof {
                    assert forall|b: int|
                        0 <= b < i + 1 && #[trigger] pre[b].id != id implies instance_in(
                        kept@,
                        pre[b],
                    ) by {
                        if b < i {
                            assert(instance_in(kept0, pre[b]));
                            let a = choose|a: int| 0 <= a < kept0.len() && kept0[a] == pre[b];
                            assert(kept@[a] == kept0[a]);
                        } else {
                            assert(inst == pre[i as int]);
                            assert(kept@[kept@.len() - 1] == pre[i as int]);
                        }
                    }
                }
            }
            i += 1;
        }
        self.instances = kept;
        found
    }

    /// Empties the table: stopping the whole process abandons every
    /// registered instance at once.
    pub fn clear(&mut self)
        ensures
            final(self).wf(),
            final(self).instances@.len() == 0,
    {
        self.instances = Vec::new();
    }

    /// Looks up the configuration file for a reload: the
    /// runtime-manager error when no instance carries the identifier,
    /// and the no-config-file error when the instance was started from
    /// an inline configuration.
    pub fn reload_path(&self, id: u16) -> (r: Result<String, Error>)
        requires
            self.wf(),
        ensures
            match r {
                Ok(p) => self.has_instance(id) && (self.path_of(id) matches Some(q) && q@ == p@),
                Err(e) => match e {
                    Error::RuntimeManager => !self.has_instance(id),
                    Error::NoConfigFile => self.has_instance(id) && self.path_of(id) is None,
                    _ => false,
                },
            },
    {
        let mut i: usize = 0;
        let n = self.instances.len();
        while i < n
            invariant
                i <= n,
                n == self.instances@.len(),
                self.wf(),
                forall|j: int| 0 <= j < i ==> self.instances@[j].id != id,
            decreases n - i,
        {
            if self.instances[i].id == id {
                proof {
                    let w = choose|k: int|
                        0 <= k < self.instances@.len() && self.instances@[k].id == id;
                    if w != i as int {
                        if w < i as int {
                            assert(self.instances@[w].id != self.instances@[i as int].id);
                        } else {
                            assert(self.instances@[i as int].id != self.instances@[w].id);
                        }
                    }
                }
                return match &self.instances[i].config_path {
                    Some(p) => Ok(p.clone()),
                    None => Err(Error::NoConfigFile),
                };
            }
            i += 1;
        }
        Err(Error::RuntimeManager)
    }
}

} // verus!
