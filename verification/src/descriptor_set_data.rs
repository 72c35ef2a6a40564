use vstd::prelude::*;

use crate::descriptor_requirements::{
    buffer_size, element_size, lemma_buffer_size_concat, DescriptorRequirements, DescriptorType, DescriptorTypeView, DescriptorView, UniformBufferElement,
};

verus! {

/// Data to bind to a descriptor: a texture (held by a handle of the
/// caller's choice) or the bytes of a uniform buffer.
#[derive(Debug)]
pub enum DescriptorData<T> {
    CombinedImageSampler(T),
    UniformBuffer(Vec<u8>),
}

/// Whether data of this shape can be bound to a descriptor of type `t`: a
/// texture to a combined image sampler, bytes to a uniform buffer of exactly
/// that many bytes.
pub open spec fn fits<T>(data: &DescriptorData<T>, t: DescriptorTypeView) -> bool {
    match data {
        DescriptorData::CombinedImageSampler(_) => t == DescriptorTypeView::CombinedImageSampler,
        DescriptorData::UniformBuffer(items) => match t {
            DescriptorTypeView::UniformBuffer(u) => buffer_size(u) == items@.len(),
            _ => false,
        },
    }
}

/// Whether computing the size of a uniform buffer of type `t` for this data
/// stays within `u32`.
pub open spec fn size_in_range<T>(data: &DescriptorData<T>, t: DescriptorTypeView) -> bool {
    match (data, t) {
        (DescriptorData::UniformBuffer(_), DescriptorTypeView::UniformBuffer(u)) => buffer_size(u) <= u32::MAX,
        _ => true,
    }
}

impl<T> DescriptorData<T> {
    /// Whether the data can be bound to a descriptor of the given type.
    pub fn compatable_with(&self, descriptor_type: &DescriptorType) -> (r: bool)
        requires
            size_in_range(self, descriptor_type@),
        ensures
            r == fits(self, descriptor_type@),
    {
        match self {
            DescriptorData::CombinedImageSampler(_) => match descriptor_type {
                DescriptorType::CombinedImageSampler => true,
                _ => false,
            },
            DescriptorData::UniformBuffer(items) => {
                if let DescriptorType::UniformBuffer(uniforms) = descriptor_type {
                    UniformBufferElement::size(uniforms.as_slice()) as usize == items.len()
                } else {
                    false
                }
            },
        }
    }
}

/// Bytes for a uniform buffer fit it exactly when their number is the sum of
/// the sizes of all its members: for members laid out as `a` then `b`, the
/// size of `a` plus the size of `b`; for one member, that member's size.
pub proof fn lemma_uniform_fit_counts_every_member<T>(
    data: DescriptorData<T>,
    a: Seq<UniformBufferElement>,
    b: Seq<UniformBufferElement>,
    e: UniformBufferElement,
)
    requires
        data is UniformBuffer,
    ensures
        fits(&data, DescriptorTypeView::UniformBuffer(a + b)) <==> data->UniformBuffer_0@.len() == buffer_size(a)
            + buffer_size(b),
        fits(&data, DescriptorTypeView::UniformBuffer(seq![e])) <==> data->UniformBuffer_0@.len() == element_size(e),
        fits(&data, DescriptorTypeView::UniformBuffer(a.push(e))) <==> data->UniformBuffer_0@.len() == buffer_size(a)
            + element_size(e),
        !fits(&data, DescriptorTypeView::CombinedImageSampler),
{
    lemma_buffer_size_concat(a, b);
    assert(seq![e].drop_last() =~= Seq::<UniformBufferElement>::empty());
    assert(buffer_size(Seq::<UniformBufferElement>::empty()) == 0);
    assert(seq![e].last() == e);
    assert(buffer_size(seq![e]) == element_size(e));
    assert(a.push(e).drop_last() =~= a);
}

/// The index of the first descriptor at (set, binding) `k`, if there is one.
pub open spec fn first_index_of(d: Seq<DescriptorView>, k: (u32, u32)) -> Option<int>
    decreases d.len(),
{
    if d.len() == 0 {
        None
    } else {
        match first_index_of(d.drop_last(), k) {
            Some(i) => Some(i),
            None => if d.last().0 == k { Some(d.len() - 1) } else { None },
        }
    }
}

proof fn lemma_first_index_bounds(d: Seq<DescriptorView>, k: (u32, u32))
    ensures
        first_index_of(d, k) matches Some(i) ==> 0 <= i < d.len() && d[i].0 == k && forall|j: int| 0 <= j < i ==> (#[trigger] d[j]).0 != k,
        first_index_of(d, k) is None ==> forall|j: int| 0 <= j < d.len() ==> (#[trigger] d[j]).0 != k,
    decreases d.len(),
{
    if d.len() > 0 {
        lemma_first_index_bounds(d.drop_last(), k);
        assert forall|j: int| 0 <= j < d.len() - 1 implies d[j] == d.drop_last()[j] by {}
    }
}

/// Whether an update of binding `binding` of set `set` with `data` is one
/// the requirements accept: the first descriptor at that place takes data of
/// that shape; where there is none, the update is refused.
pub open spec fn accepts_update<T>(d: Seq<DescriptorView>, set: u32, binding: u32, data: &DescriptorData<T>) -> bool {
    match first_index_of(d, (set, binding)) {
        Some(i) => fits(data, d[i].1),
        None => false,
    }
}

impl DescriptorRequirements {
    /// Checks an update of a render object's descriptor against the
    /// requirements of its pipeline.
    pub fn check_update<T>(&self, set: u32, binding: u32, data: &DescriptorData<T>) -> (r: bool)
        requires
            first_index_of(self@, (set, binding)) matches Some(i) ==> size_in_range(data, self@[i].1),
        ensures
            r == accepts_update(self@, set, binding, data),
    {
        proof {
            lemma_first_index_bounds(self@, (set, binding));
        }
        let mut i: usize = 0;
        while i < self.descriptors.len()
            invariant
                i <= self@.len(),
                first_index_of(self@, (set, binding)) matches Some(f) ==> size_in_range(data, self@[f].1),
                forall|j: int| 0 <= j < i ==> (#[trigger] self@[j]).0 != (set, binding),
            decreases self@.len() - i,
        {
            if self.descriptors[i].0.0 == set && self.descriptors[i].0.1 == binding {
                assert(self@[i as int].0 == (set, binding));
                proof {
                    lemma_first_index_bounds(self@, (set, binding));
                }
                assert(first_index_of(self@, (set, binding)) == Some(i as int)) by {
                    if let Some(f) = first_index_of(self@, (set, binding)) {
                        if f < i {
                            assert(self@[f].0 != (set, binding));
                        }
                    }
                }
                return data.compatable_with(&self.descriptors[i].1);
            }
            i = i + 1;
        }
        proof {
            lemma_first_index_bounds(self@, (set, binding));
            if let Some(f) = first_index_of(self@, (set, binding)) {
                assert(self@[f].0 != (set, binding));
            }
        }
        false
    }

    /// The maximal runs of consecutive descriptors that share a set, each as
    /// (set, first index, index past the end).
    pub fn set_runs(&self) -> (r: Vec<(u32, usize, usize)>)
        ensures
            runs_by_set(self@, r@),
    {
        let n = self.descriptors.len();
        let mut runs: Vec<(u32, usize, usize)> = Vec::new();
        let mut start: usize = 0;
        while start < n
            invariant
                n == self@.len(),
                start <= n,
                runs@.len() == 0 <==> start == 0,
                runs@.len() > 0 ==> runs@.last().2 == start && (start < n ==> self@[start as int].0.0 != runs@.last().0),
                runs@.len() > 0 ==> runs@[0].1 == 0,
                forall|i: int| 0 <= i < runs@.len() ==> (#[trigger] runs@[i]).1 < runs@[i].2,
                forall|i: int| 0 <= i < runs@.len() - 1 ==> (#[trigger] runs@[i]).2 == runs@[i + 1].1 && runs@[i].0 != runs@[i + 1].0,
                forall|i: int, x: int| 0 <= i < runs@.len() && (#[trigger] runs@[i]).1 <= x < runs@[i].2 ==> (#[trigger] self@[x]).0.0 == runs@[i].0,
            decreases n - start,
        {
            let set = self.descriptors[start].0.0;
            let mut end: usize = start + 1;
            while end < n && self.descriptors[end].0.0 == set
                invariant
                    n == self@.len(),
                    start < end <= n,
                    set == self@[start as int].0.0,
                    forall|x: int| start <= x < end ==> (#[trigger] self@[x]).0.0 == set,
                decreases n - end,
            {
                end = end + 1;
            }
            let ghost old_runs = runs@;
            runs.push((set, start, end));
            proof {
                assert forall|i: int, x: int| 0 <= i < runs@.len() && (#[trigger] runs@[i]).1 <= x < runs@[i].2 implies (#[trigger] self@[x]).0.0 == runs@[i].0 by {
                    if i < old_runs.len() {
                        assert(runs@[i] == old_runs[i]);
                    }
                }
                assert forall|i: int| 0 <= i < runs@.len() - 1 implies (#[trigger] runs@[i]).2 == runs@[i + 1].1 && runs@[i].0 != runs@[i + 1].0 by {
                    if i < old_runs.len() - 1 {
                        assert(runs@[i] == old_runs[i] && runs@[i + 1] == old_runs[i + 1]);
                    } else {
                        assert(runs@[i] == old_runs.last());
                    }
                }
            }
            start = end;
        }
        runs
    }
}

/// `r` splits the descriptors into maximal runs of one set, in order, each
/// as (set, first index, index past the end).
pub open spec fn runs_by_set(d: Seq<DescriptorView>, r: Seq<(u32, usize, usize)>) -> bool {
    &&& (r.len() == 0 <==> d.len() == 0)
    &&& r.len() > 0 ==> r[0].1 == 0 && r.last().2 == d.len()
    &&& forall|i: int| 0 <= i < r.len() ==> (#[trigger] r[i]).1 < r[i].2
    &&& forall|i: int| 0 <= i < r.len() - 1 ==> (#[trigger] r[i]).2 == r[i + 1].1 && r[i].0 != r[i + 1].0
    &&& forall|i: int, x: int| 0 <= i < r.len() && (#[trigger] r[i]).1 <= x < r[i].2 ==> (#[trigger] d[x]).0.0 == r[i].0
}

} // verus!
