//! The external data source a template renders against, and the host
//! environment behind function calls, host-supplied helpers and raw scripts.
//!
//! Templates render against a host-owned object graph. The engine depends
//! only on a small capability set — get a property by name, discriminate the
//! value's kind — so the graph is held here as numbered objects whose
//! property values are plain [`RawValue`]s; object- and function-valued
//! properties carry the handle of the host thing they stand for. Everything
//! the host alone can do (invoke a callable, run raw code) goes through the
//! [`HostEnv`] trait, which the embedding application implements.

use vstd::prelude::*;
use crate::convert::RawValue;
use crate::convert::RawObject;
use crate::convert::Val;
use crate::memory::FrameV;
use crate::memory::entries_view;
use crate::memory::frame_get;

verus! {

/// A queryable graph of host objects: object handle `i` owns the property
/// list `objects[i]`. Within one list the latest write to a name wins.
pub struct DataSource {
    pub objects: Vec<Vec<(String, RawValue)>>,
}

/// The properties of object `oid`, or an empty list for an unknown handle.
pub open spec fn ds_obj(ds: DataSource, oid: int) -> FrameV {
    if 0 <= oid < ds.objects@.len() {
        entries_view(ds.objects@[oid]@)
    } else {
        Seq::empty()
    }
}

/// The value of property `k` of object `oid`, if any.
pub open spec fn ds_get(ds: DataSource, oid: int, k: Seq<char>) -> Option<Val> {
    frame_get(ds_obj(ds, oid), k)
}

impl DataSource {
    /// An empty data source with no objects.
    pub fn new() -> (r: Self)
        ensures
            r.objects@.len() == 0,
    {
        DataSource { objects: Vec::new() }
    }

    /// Adds a fresh object with no properties and returns its handle.
    /// Existing objects keep their handles and properties.
    pub fn add_object(&mut self) -> (r: usize)
        ensures
            r == old(self).objects@.len(),
            final(self).objects@.len() == old(self).objects@.len() + 1,
            forall|i: int| 0 <= i < old(self).objects@.len()
                ==> #[trigger] ds_obj(*final(self), i) == ds_obj(*old(self), i),
            ds_obj(*final(self), r as int) == Seq::<(Seq<char>, Val)>::empty(),
    {
        let r = self.objects.len();
        self.objects.push(Vec::new());
        proof {
            assert(entries_view(self.objects@[r as int]@) =~= Seq::<(Seq<char>, Val)>::empty());
        }
        r
    }

    /// Sets property `name` of object `obj` to `v`, shadowing any earlier
    /// value under that name. Other objects and properties are unchanged.
    pub fn set_prop(&mut self, obj: usize, name: &str, v: RawValue)
        requires
            obj < old(self).objects@.len(),
        ensures
            final(self).objects@.len() == old(self).objects@.len(),
            forall|i: int| 0 <= i < old(self).objects@.len() && i != obj
                ==> #[trigger] ds_obj(*final(self), i) == ds_obj(*old(self), i),
            ds_obj(*final(self), obj as int) == ds_obj(*old(self), obj as int).push(
                (name@, v@),
            ),
    {
        let key = String::from_str(name);
        let mut entries = self.objects.remove(obj);
        proof {
            assert(entries_view(entries@.push((key, v))) =~= entries_view(entries@).push(
                (name@, v@),
            ));
        }
        entries.push((key, v));
        self.objects.insert(obj, entries);
        proof {
            assert(forall|i: int| 0 <= i < old(self).objects@.len() && i != obj
                ==> self.objects@[i] == old(self).objects@[i]);
        }
    }

    /// The value of property `name` of object `obj`; `None` for a missing
    /// property or an unknown handle.
    pub fn get_prop(&self, obj: usize, name: &String) -> (r: Option<&RawValue>)
        ensures
            match ds_get(*self, obj as int, name@) {
                Some(v) => r matches Some(rv) && rv@ == v,
                None => r is None,
            },
    {
        if obj >= self.objects.len() {
            return None;
        }
        let entries = &self.objects[obj];
        proof {
            assert(entries_view(entries@).take(entries@.len() as int) =~= entries_view(entries@));
        }
        let mut ei = entries.len();
        while ei > 0
            invariant
                obj < self.objects@.len(),
                entries@ == self.objects@[obj as int]@,
                ei <= entries@.len(),
                frame_get(entries_view(entries@), name@) == frame_get(
                    entries_view(entries@).take(ei as int),
                    name@,
                ),
            decreases ei,
        {
            ei -= 1;
            proof {
                let fv = entries_view(entries@);
                assert(fv.take(ei + 1).last() == fv[ei as int]);
                assert(fv.take(ei + 1).drop_last() =~= fv.take(ei as int));
                assert(fv[ei as int] == (entries@[ei as int].0@, entries@[ei as int].1@));
            }
            if crate::convert::str_eq(entries[ei].0.as_str(), name.as_str()) {
                return Some(&entries[ei].1);
            }
        }
        proof {
            assert(entries_view(entries@).take(0) =~= Seq::<(Seq<char>, Val)>::empty());
        }
        None
    }
}

/// What the host alone can do during a render. The engine states nothing
/// about the outcomes: whatever an implementation returns, the verified code
/// around the call handles every possible value, and an `Err` carries the
/// host's message.
pub trait HostEnv {
    /// Invoke the host callable behind `func` with the given arguments and
    /// hand back its result as a value.
    fn call_function(&mut self, func: &RawObject, args: Vec<RawValue>) -> Result<
        RawValue,
        String,
    >;

    /// Invoke the host-supplied helper behind `func` with the block's
    /// evaluated parameters and its rendered body text, if the block had one.
    fn call_helper(&mut self, func: &RawObject, params: Vec<RawValue>, body: Option<String>)
        -> Result<RawValue, String>;

    /// Run raw host code with the data context behind `data` bound as its
    /// sole input, and hand back the returned value.
    fn run_script(&mut self, code: &str, data: &RawObject) -> Result<RawValue, String>;
}

} // verus!
