//! The metric registry: process-wide keyed storage for histograms.
//!
//! Metrics are stored per name, in insertion order. A name is pinned to the
//! definition that first registered it: a later registration under the same
//! name with a different definition hash is rejected. Under one name,
//! metrics with different tag values (different ids) coexist; registering
//! an id that already exists hands out a fresh recorder for the existing
//! histogram and leaves the registry untouched.

use vstd::prelude::*;

use crate::errors::Error;
use crate::histogram::Histogram;
use crate::histogram::HistogramBuilder;
use crate::histogram::HistogramRecorder;
use crate::metric::spec_definition_hash;
use crate::metric::spec_description_ok;
use crate::metric::spec_metric_id;
use crate::metric::tag_names_of;
use crate::metric::tag_values_of;
use crate::metric::MetricDescription;

verus! {

/// One name's slot: the pinned definition and the histograms keyed by id.
pub struct MetricHolder {
    pub metric_description: MetricDescription,
    pub metrics: Vec<(u64, Histogram)>,
}

impl MetricHolder {
    /// The pinned definition is valid, ids are unique, and every histogram
    /// is usable.
    pub open spec fn wf(&self) -> bool {
        &&& self.metric_description.wf()
        &&& forall|i: int, j: int|
            0 <= i < j < self.metrics@.len() ==> (#[trigger] self.metrics@[i]).0 != (
            #[trigger] self.metrics@[j]).0
        &&& forall|i: int| 0 <= i < self.metrics@.len() ==> (#[trigger] self.metrics@[i]).1.wf()
    }

    pub fn new(metric_definition: MetricDescription) -> (r: MetricHolder)
        ensures
            r.metric_description == metric_definition,
            r.metrics@.len() == 0,
    {
        MetricHolder { metric_description: metric_definition, metrics: Vec::new() }
    }
}

/// Does the storage hold an entry for the name?
pub open spec fn spec_has_name(s: Seq<(String, MetricHolder)>, name: Seq<char>) -> bool {
    exists|i: int| 0 <= i < s.len() && (#[trigger] s[i]).0@ == name
}

/// The index of the name's entry (meaningful when names are unique).
pub open spec fn spec_name_index(s: Seq<(String, MetricHolder)>, name: Seq<char>) -> int {
    choose|i: int| 0 <= i < s.len() && (#[trigger] s[i]).0@ == name
}

/// Does the holder hold a histogram under the id?
pub open spec fn spec_holder_has_id(h: MetricHolder, id: u64) -> bool {
    exists|j: int| 0 <= j < h.metrics@.len() && (#[trigger] h.metrics@[j]).0 == id
}

/// An insertion-ordered registry of named histograms.
pub struct Registry {
    pub name: String,
    pub histograms_storage: Vec<(String, MetricHolder)>,
}

impl Registry {
    /// Names are unique, each entry's key is its pinned definition's name,
    /// and every holder is well formed.
    pub open spec fn wf(&self) -> bool {
        &&& forall|i: int, j: int|
            0 <= i < j < self.histograms_storage@.len() ==> (
            #[trigger] self.histograms_storage@[i]).0@ != (
            #[trigger] self.histograms_storage@[j]).0@
        &&& forall|i: int|
            0 <= i < self.histograms_storage@.len() ==> (
            #[trigger] self.histograms_storage@[i]).1.wf()
        &&& forall|i: int|
            0 <= i < self.histograms_storage@.len() ==> (
            #[trigger] self.histograms_storage@[i]).0@ == self.histograms_storage@[
                i].1.metric_description.name@
    }

    pub fn new(name: String) -> (r: Registry)
        ensures
            r.name@ == name@,
            r.histograms_storage@.len() == 0,
            r.wf(),
    {
        Registry { name, histograms_storage: Vec::new() }
    }

    /// Register a histogram, or fetch a recorder for one already
    /// registered.
    ///
    /// An invalid description is rejected. A name already pinned to a
    /// different definition hash is rejected with
    /// `MetricAlreadyRegDifferently`. A registration whose name and id both
    /// exist succeeds without changing the registry at all: the recorder
    /// writes into the same underlying distribution. Otherwise a fresh
    /// histogram is created under the description's id, under the existing
    /// or a fresh name entry; with creatable settings that is sure to
    /// succeed. Every rejection leaves the registry exactly as it was.
    pub fn get_or_register_histogram(&mut self, histogram_builder: HistogramBuilder) -> (r:
        Result<HistogramRecorder, Error>)
        requires
            old(self).wf(),
            histogram_builder.settings.measurement_unit.wf(),
        ensures
            final(self).wf(),
            final(self).name@ == old(self).name@,
            ({
                let s = old(self).histograms_storage@;
                let bname = histogram_builder.name@;
                let ok = spec_description_ok(bname, histogram_builder.tags@);
                let id = spec_metric_id(bname, tag_values_of(histogram_builder.tags@));
                let dh = spec_definition_hash(
                    bname,
                    histogram_builder.description@,
                    tag_names_of(histogram_builder.tags@),
                );
                let conflict = ok && spec_has_name(s, bname) && s[spec_name_index(
                    s,
                    bname,
                )].1.metric_description.definition_hash != dh;
                let reuse = ok && spec_has_name(s, bname) && s[spec_name_index(
                    s,
                    bname,
                )].1.metric_description.definition_hash == dh && spec_holder_has_id(
                    s[spec_name_index(s, bname)].1,
                    id,
                );
                &&& (!ok ==> (r matches Err(e) && e matches Error::Msg(_)))
                &&& (r.is_ok() ==> ok)
                &&& (r.is_err() ==> *final(self) == *old(self))
                &&& (ok && !spec_has_name(s, bname)
                    && histogram_builder.settings.creatable() ==> r.is_ok())
                &&& (ok && spec_has_name(s, bname) && !conflict
                    && histogram_builder.settings.creatable() ==> r.is_ok())
                &&& (conflict <==> r == Result::<HistogramRecorder, Error>::Err(
                    Error::MetricAlreadyRegDifferently(),
                ))
                &&& (reuse ==> r.is_ok() && *final(self) == *old(self))

                &&& (!reuse ==> (r matches Ok(rec)
                    ==> rec.measurement_unit.dimension
                        == histogram_builder.settings.measurement_unit.dimension
                        && rec.measurement_unit.magnitude.scale
                        == histogram_builder.settings.measurement_unit.magnitude.scale))
                &&& (reuse ==> (r matches Ok(rec) ==> exists|j: int|
                    {
                        &&& 0 <= j < s[spec_name_index(s, bname)].1.metrics@.len()
                        &&& (#[trigger] s[spec_name_index(s, bname)].1.metrics@[j]).0
                            == id
                        &&& rec.measurement_unit.dimension == s[spec_name_index(
                            s,
                            bname,
                        )].1.metrics@[j].1.histogram_settings.measurement_unit.dimension
                        &&& rec.measurement_unit.magnitude.scale == s[spec_name_index(
                            s,
                            bname,
                        )].1.metrics@[j].1.histogram_settings.measurement_unit.magnitude.scale
                    }))
                &&& (ok && !spec_has_name(s, bname) && r.is_ok() ==> {
                    let t = final(self).histograms_storage@;
                    &&& t.len() == s.len() + 1
                    &&& t.drop_last() == s
                    &&& t.last().0@ == bname
                    &&& t.last().1.metric_description.definition_hash == dh
                    &&& t.last().1.metrics@.len() == 1
                    &&& t.last().1.metrics@[0].0 == id
                })
                &&& (ok && spec_has_name(s, bname) && !conflict && !reuse && r.is_ok()
                    ==> {
                    let i = spec_name_index(s, bname);
                    let t = final(self).histograms_storage@;
                    &&& t.len() == s.len()
                    &&& forall|j: int| 0 <= j < s.len() && j != i ==> t[j] == s[j]
                    &&& t[i].0 == s[i].0
                    &&& t[i].1.metric_description == s[i].1.metric_description
                    &&& t[i].1.metrics@.drop_last() == s[i].1.metrics@
                    &&& t[i].1.metrics@.len() == s[i].1.metrics@.len() + 1
                    &&& t[i].1.metrics@.last().0 == id
                })
            }),
    {
        let metric_desc = match histogram_builder.metric_description() {
            Ok(d) => d,
            Err(e) => {
                return Err(e);
            },
        };
        let ghost s = self.histograms_storage@;
        let ghost bname = histogram_builder.name@;
        let n = self.histograms_storage.len();
        let mut idx: usize = 0;
        let mut found: bool = false;
        while idx < n
            invariant_except_break
                n == self.histograms_storage@.len(),
                idx <= n,
                !found,
                metric_desc.name@ == bname,
                forall|j: int| 0 <= j < idx ==> (#[trigger] self.histograms_storage@[j]).0@ != bname,
            ensures
                n == self.histograms_storage@.len(),
                idx <= n,
                found ==> idx < n && self.histograms_storage@[idx as int].0@ == bname,
                !found ==> forall|j: int|
                    0 <= j < n ==> (#[trigger] self.histograms_storage@[j]).0@ != bname,
            decreases n - idx,
        {
            if self.histograms_storage[idx].0.eq(&metric_desc.name) {
                found = true;
                break;
            }
            idx += 1;
        }
        if !found {
            proof {
                assert(!spec_has_name(s, bname));
            }
            let holder_desc = metric_desc.duplicate();
            let id = metric_desc.id;
            let histogram = match Histogram::new(metric_desc, histogram_builder.settings) {
                Ok(h) => h,
                Err(e) => {
                    return Err(e);
                },
            };
            let recorder = histogram.new_recorder();
            let mut holder = MetricHolder::new(holder_desc);
            holder.metrics.push((id, histogram));
            let key = holder.metric_description.name.clone();
            self.histograms_storage.push((key, holder));
            proof {
                assert(final(self).histograms_storage@.drop_last() =~= s);
            }
            return Ok(recorder);
        }
        proof {
            assert(spec_has_name(s, bname));
            let ci = spec_name_index(s, bname);
            assert(0 <= ci < s.len() && s[ci].0@ == bname);
            if ci != idx {
                assert(s[ci].0@ != s[idx as int].0@);
            }
            assert(spec_name_index(s, bname) == idx);
        }
        if self.histograms_storage[idx].1.metric_description.definition_hash
            != metric_desc.definition_hash {
            return Err(Error::MetricAlreadyRegDifferently());
        }
        let m = self.histograms_storage[idx].1.metrics.len();
        let mut j: usize = 0;
        let mut id_found: bool = false;
        while j < m
            invariant_except_break
                idx < self.histograms_storage@.len(),
                m == self.histograms_storage@[idx as int].1.metrics@.len(),
                j <= m,
                !id_found,
                forall|p: int|
                    0 <= p < j ==> (#[trigger] self.histograms_storage@[
                        idx as int].1.metrics@[p]).0 != metric_desc.id,
            ensures
                idx < self.histograms_storage@.len(),
                m == self.histograms_storage@[idx as int].1.metrics@.len(),
                j <= m,
                id_found ==> j < m && self.histograms_storage@[idx as int].1.metrics@[
                    j as int].0 == metric_desc.id,
                !id_found ==> forall|p: int|
                    0 <= p < m ==> (#[trigger] self.histograms_storage@[
                        idx as int].1.metrics@[p]).0 != metric_desc.id,
            decreases m - j,
        {
            if self.histograms_storage[idx].1.metrics[j].0 == metric_desc.id {
                id_found = true;
                break;
            }
            j += 1;
        }
        if id_found {
            proof {
                assert(spec_holder_has_id(s[idx as int].1, metric_desc.id));
            }
            let recorder = self.histograms_storage[idx].1.metrics[j].1.new_recorder();
            return Ok(recorder);
        }
        proof {
            assert(!spec_holder_has_id(s[idx as int].1, metric_desc.id));
        }
        let id = metric_desc.id;
        let histogram = match Histogram::new(metric_desc, histogram_builder.settings) {
            Ok(h) => h,
            Err(e) => {
                return Err(e);
            },
        };
        let recorder = histogram.new_recorder();
        let mut entry = self.histograms_storage.remove(idx);
        entry.1.metrics.push((id, histogram));
        self.histograms_storage.insert(idx, entry);
        proof {
            let t = self.histograms_storage@;
            assert(t =~= s.update(idx as int, t[idx as int]));
            assert(t[idx as int].1.metrics@.drop_last() =~= s[idx as int].1.metrics@);
            assert forall|a: int, b: int| 0 <= a < b < t.len() implies (
            #[trigger] t[a]).0@ != (#[trigger] t[b]).0@ by {
                assert(s[a].0@ != s[b].0@);
                assert(t[a].0@ == s[a].0@ && t[b].0@ == s[b].0@);
            }
        }
        Ok(recorder)
    }

    /// The stored holders, names in insertion order and histograms in
    /// insertion order inside each holder: the deterministic order used
    /// for snapshotting and exposition.
    pub fn histograms(&self) -> (r: &Vec<(String, MetricHolder)>)
        ensures
            r == &self.histograms_storage,
    {
        &self.histograms_storage
    }
}

impl HistogramBuilder {
    /// Register this builder's histogram in the registry (or fetch a
    /// recorder for one already registered under the same identity), with
    /// the same guarantees as `Registry::get_or_register_histogram`.
    pub fn build(self, registry: &mut Registry) -> (r: Result<HistogramRecorder, Error>)
        requires
            old(registry).wf(),
            self.settings.measurement_unit.wf(),
        ensures
            final(registry).wf(),
            final(registry).name@ == old(registry).name@,
            ({
                let s = old(registry).histograms_storage@;
                let bname = self.name@;
                let ok = spec_description_ok(bname, self.tags@);
                let id = spec_metric_id(bname, tag_values_of(self.tags@));
                let dh = spec_definition_hash(
                    bname,
                    self.description@,
                    tag_names_of(self.tags@),
                );
                let conflict = ok && spec_has_name(s, bname) && s[spec_name_index(
                    s,
                    bname,
                )].1.metric_description.definition_hash != dh;
                let reuse = ok && spec_has_name(s, bname) && s[spec_name_index(
                    s,
                    bname,
                )].1.metric_description.definition_hash == dh && spec_holder_has_id(
                    s[spec_name_index(s, bname)].1,
                    id,
                );
                &&& (!ok ==> (r matches Err(e) && e matches Error::Msg(_)))
                &&& (r.is_ok() ==> ok)
                &&& (r.is_err() ==> *final(registry) == *old(registry))
                &&& (ok && !spec_has_name(s, bname) && self.settings.creatable()
                    ==> r.is_ok())
                &&& (ok && spec_has_name(s, bname) && !conflict
                    && self.settings.creatable() ==> r.is_ok())
                &&& (conflict <==> r == Result::<HistogramRecorder, Error>::Err(
                    Error::MetricAlreadyRegDifferently(),
                ))
                &&& (reuse ==> r.is_ok() && *final(registry) == *old(registry))
                &&& (!reuse ==> (r matches Ok(rec)
                    ==> rec.measurement_unit.dimension
                        == self.settings.measurement_unit.dimension
                        && rec.measurement_unit.magnitude.scale
                        == self.settings.measurement_unit.magnitude.scale))
                &&& (ok && !spec_has_name(s, bname) && r.is_ok() ==> {
                    let t = final(registry).histograms_storage@;
                    &&& t.len() == s.len() + 1
                    &&& t.drop_last() == s
                    &&& t.last().0@ == bname
                    &&& t.last().1.metric_description.definition_hash == dh
                    &&& t.last().1.metrics@.len() == 1
                    &&& t.last().1.metrics@[0].0 == id
                })
                &&& (ok && spec_has_name(s, bname) && !conflict && !reuse && r.is_ok()
                    ==> {
                    let i = spec_name_index(s, bname);
                    let t = final(registry).histograms_storage@;
                    &&& t.len() == s.len()
                    &&& forall|j: int| 0 <= j < s.len() && j != i ==> t[j] == s[j]
                    &&& t[i].0 == s[i].0
                    &&& t[i].1.metric_description == s[i].1.metric_description
                    &&& t[i].1.metrics@.drop_last() == s[i].1.metrics@
                    &&& t[i].1.metrics@.len() == s[i].1.metrics@.len() + 1
                    &&& t[i].1.metrics@.last().0 == id
                })
            }),
    {
        registry.get_or_register_histogram(self)
    }
}

} // verus!
