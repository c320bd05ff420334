//! A name-keyed registry of editor extensions. Handlers are registered
//! under the name they report; executing an unknown name is a silent
//! no-op.

use vstd::prelude::*;

use crate::text::str_eq;

verus! {

/// An editor extension: it reports a name and acts on the editing
/// context it is handed.
pub trait Plugin {
    fn name(&self) -> (r: &str);

    fn execute(&mut self, context: &mut PluginContext);
}

/// What an extension gets to see of the editor when it runs.
pub struct PluginContext {
    pub current_file: Option<String>,
    pub selected_text: Option<String>,
}

/// The registry: handlers keyed by their reported name, each name held
/// at most once.
pub struct PluginManager<P: Plugin> {
    pub plugins: Vec<(String, P)>,
}

impl<P: Plugin> PluginManager<P> {
    /// The registered names, in registration order.
    pub open spec fn names(&self) -> Seq<Seq<char>> {
        Seq::new(self.plugins@.len(), |i: int| self.plugins@[i].0@)
    }

    /// No name is registered twice.
    pub open spec fn wf(&self) -> bool {
        forall|i: int, j: int|
            0 <= i < j < self.names().len() ==> self.names()[i] != self.names()[j]
    }

    /// An empty registry.
    pub fn new() -> (r: PluginManager<P>)
        ensures
            r.wf(),
            r.names().len() == 0,
    {
        PluginManager { plugins: Vec::new() }
    }

    /// Registers `plugin` under `name`: the handler already held under
    /// that name is replaced in place, otherwise the pair is appended,
    /// so names stay unique either way.
    pub fn register_named(&mut self, name: String, plugin: P)
        requires
            old(self).wf(),
        ensures
            final(self).wf(),
            old(self).names().contains(name@) ==> ({
                let k = old(self).names().index_of(name@);
                &&& 0 <= k < old(self).plugins@.len()
                &&& old(self).names()[k] == name@
                &&& final(self).plugins@.len() == old(self).plugins@.len()
                &&& final(self).plugins@[k].0@ == name@
                &&& final(self).plugins@[k].1 == plugin
                &&& forall|j: int|
                    0 <= j < old(self).plugins@.len() && j != k ==> final(self).plugins@[j] == old(
                        self,
                    ).plugins@[j]
            }),
            !old(self).names().contains(name@) ==> final(self).plugins@ == old(
                self,
            ).plugins@.push((name, plugin)),
    {
        let n = self.plugins.len();
        let mut k: usize = 0;
        while k < n
            invariant
                n == self.plugins@.len(),
                k <= n,
                old(self).wf(),
                forall|i: int| 0 <= i < k ==> old(self).names()[i] != name@,
                *self == *old(self),
            decreases n - k,
        {
            let found = {
                let pair = &self.plugins[k];
                pair.0 == name
            };
            if found {
                proof {
                    assert(old(self).names()[k as int] == name@);
                    assert(old(self).names().contains(name@));
                    let ki = old(self).names().index_of(name@);
                    assert(old(self).names()[ki] == name@);
                    assert(ki == k as int);
                }
                self.plugins[k] = (name, plugin);
                proof {
                    assert(self.names() =~= old(self).names());
                    assert(self.names() == old(self).names());
                }
                return ;
            }
            k += 1;
        }
        proof {
            assert(!old(self).names().contains(name@)) by {
                if old(self).names().contains(name@) {
                    let i = choose|i: int|
                        0 <= i < old(self).names().len() && old(self).names()[i] == name@;
                    assert(old(self).names()[i] != name@);
                }
            }
        }
        self.plugins.push((name, plugin));
        proof {
            assert(self.names().drop_last() =~= old(self).names());
            let m = self.names().len();
            assert forall|i: int, j: int| 0 <= i < j < m implies self.names()[i]
                != self.names()[j] by {
                if j < m - 1 {
                    assert(self.names()[i] == old(self).names()[i]);
                    assert(self.names()[j] == old(self).names()[j]);
                } else {
                    assert(self.names()[i] == old(self).names()[i]);
                    assert(self.names()[j] == name@);
                    assert(old(self).names()[i] != name@);
                }
            }
        }
    }

    /// Registers `plugin` under the name it reports: a handler already
    /// held under that name is replaced by `plugin`, otherwise `plugin`
    /// is appended under its fresh name.
    pub fn register_plugin(&mut self, plugin: P)
        requires
            old(self).wf(),
        ensures
            final(self).wf(),
            ({
                ||| exists|k: int|
                    {
                        &&& 0 <= k < old(self).plugins@.len()
                        &&& final(self).plugins@.len() == old(self).plugins@.len()
                        &&& (#[trigger] final(self).plugins@[k]).1 == plugin
                        &&& final(self).plugins@[k].0@ == old(self).names()[k]
                        &&& forall|j: int|
                            0 <= j < old(self).plugins@.len() && j != k
                                ==> final(self).plugins@[j] == old(self).plugins@[j]
                    }
                ||| {
                    &&& final(self).plugins@.len() == old(self).plugins@.len() + 1
                    &&& final(self).plugins@.drop_last() == old(self).plugins@
                    &&& final(self).plugins@.last().1 == plugin
                    &&& !old(self).names().contains(final(self).plugins@.last().0@)
                }
            }),
    {
        let name = plugin.name().to_owned();
        let ghost nv = name@;
        self.register_named(name, plugin);
        proof {
            if old(self).names().contains(nv) {
                let k = old(self).names().index_of(nv);
                assert((final(self).plugins@[k]).1 == plugin);
            } else {
                assert(final(self).plugins@.drop_last() =~= old(self).plugins@);
            }
        }
    }

    /// Runs the handler registered under `name` on `context`; an
    /// unknown name is a silent no-op that leaves the registry and the
    /// context untouched. A matched entry keeps its name, every other
    /// entry is left as it was; what the handler leaves in the context
    /// is its own business.
    pub fn execute_plugin(&mut self, name: &str, context: &mut PluginContext)
        requires
            old(self).wf(),
        ensures
            final(self).wf(),
            final(self).names() == old(self).names(),
            !old(self).names().contains(name@) ==> *final(self) == *old(self) && *final(context)
                == *old(context),
            old(self).names().contains(name@) ==> ({
                let k = old(self).names().index_of(name@);
                &&& 0 <= k < old(self).plugins@.len()
                &&& final(self).plugins@.len() == old(self).plugins@.len()
                &&& final(self).plugins@[k].0 == old(self).plugins@[k].0
                &&& forall|j: int|
                    0 <= j < old(self).plugins@.len() && j != k ==> final(self).plugins@[j] == old(
                        self,
                    ).plugins@[j]
            }),
    {
        let n = self.plugins.len();
        let mut k: usize = 0;
        while k < n
            invariant
                n == self.plugins@.len(),
                k <= n,
                old(self).wf(),
                forall|i: int| 0 <= i < k ==> old(self).names()[i] != name@,
                *self == *old(self),
                *context == *old(context),
            decreases n - k,
        {
            let found = {
                let pair = &self.plugins[k];
                str_eq(pair.0.as_str(), name)
            };
            if found {
                proof {
                    assert(old(self).names()[k as int] == name@);
                    assert(old(self).names().contains(name@));
                    let ki = old(self).names().index_of(name@);
                    assert(old(self).names()[ki] == name@);
                    assert(ki == k as int);
                }
                let pair = &mut self.plugins[k];
                pair.1.execute(context);
                proof {
                    assert(self.names() =~= old(self).names());
                    assert(self.names() == old(self).names());
                }
                return ;
            }
            k += 1;
        }
        proof {
            assert(!old(self).names().contains(name@)) by {
                if old(self).names().contains(name@) {
                    let i = choose|i: int|
                        0 <= i < old(self).names().len() && old(self).names()[i] == name@;
                    assert(old(self).names()[i] != name@);
                }
            }
        }
    }

    /// The registered names, in registration order.
    pub fn list_plugins(&self) -> (r: Vec<&str>)
        ensures
            r@.len() == self.names().len(),
            forall|i: int| 0 <= i < r@.len() ==> (#[trigger] r@[i])@ == self.names()[i],
    {
        let n = self.plugins.len();
        let mut r: Vec<&str> = Vec::new();
        let mut k: usize = 0;
        while k < n
            invariant
                n == self.plugins@.len(),
                k <= n,
                r@.len() == k,
                forall|i: int| 0 <= i < k ==> (#[trigger] r@[i])@ == self.names()[i],
            decreases n - k,
        {
            let pair = &self.plugins[k];
            r.push(pair.0.as_str());
            k += 1;
        }
        r
    }
}

} // verus!
