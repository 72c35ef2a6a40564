use vstd::prelude::*;

use crate::data_type::{DType, DataType};
use crate::enumerations::{ExecutionModel, StorageClass};
use crate::id_table::module_state;
use crate::interpreter::{is_layout_of, spec_shader_stage, types_view, uniforms_of, variables_of, Interpreter};

verus! {

/// The pipeline stage a shader module runs in.
#[derive(Debug, Clone, Copy, PartialEq, Eq, Structural)]
pub enum ShaderStage {
    Unknown,
    Vertex,
    Fragment,
}

/// The stage an execution model runs in.
pub open spec fn stage_of_model(value: ExecutionModel) -> ShaderStage {
    match value {
        ExecutionModel::Vertex => ShaderStage::Vertex,
        ExecutionModel::Fragment => ShaderStage::Fragment,
    }
}

impl From<ExecutionModel> for ShaderStage {
    fn from(value: ExecutionModel) -> (r: ShaderStage) {
        match value {
            ExecutionModel::Vertex => ShaderStage::Vertex,
            ExecutionModel::Fragment => ShaderStage::Fragment,
        }
    }
}

impl vstd::std_specs::convert::FromSpecImpl<ExecutionModel> for ShaderStage {
    open spec fn obeys_from_spec() -> bool {
        true
    }

    open spec fn from_spec(v: ExecutionModel) -> ShaderStage {
        stage_of_model(v)
    }
}

/// One binding of a descriptor set and the data type bound there.
#[derive(Debug)]
pub struct DescriptorBinding {
    pub binding: u32,
    pub data_type: DataType,
}

/// A descriptor set and its bindings.
#[derive(Debug)]
pub struct DescriptorSet {
    pub set: u32,
    pub bindings: Vec<DescriptorBinding>,
}

impl View for DescriptorBinding {
    type V = (u32, DType);

    open spec fn view(&self) -> (u32, DType) {
        (self.binding, self.data_type@)
    }
}

impl View for DescriptorSet {
    type V = (u32, Seq<(u32, DType)>);

    open spec fn view(&self) -> (u32, Seq<(u32, DType)>) {
        (self.set, Seq::new(self.bindings.len() as nat, |j: int| self.bindings[j]@))
    }
}

/// The model of a list of descriptor sets.
pub open spec fn sets_view(v: Seq<DescriptorSet>) -> Seq<(u32, Seq<(u32, DType)>)> {
    Seq::new(v.len(), |i: int| v[i]@)
}

/// Sets strictly ascending by number, each with at least one binding, and the
/// bindings of each set strictly ascending.
pub open spec fn sets_sorted(v: Seq<(u32, Seq<(u32, DType)>)>) -> bool {
    &&& forall|i: int, j: int| #![trigger v[i], v[j]] 0 <= i < j < v.len() ==> v[i].0 < v[j].0
    &&& forall|i: int| 0 <= i < v.len() ==> (#[trigger] v[i]).1.len() > 0
    &&& forall|i: int, a: int, b: int|
        #![trigger v[i].1[a], v[i].1[b]]
        0 <= i < v.len() && 0 <= a < b < v[i].1.len() ==> v[i].1[a].0 < v[i].1[b].0
}

/// Whether binding `b` of set `s` appears in the list.
pub open spec fn lists(v: Seq<(u32, Seq<(u32, DType)>)>, s: u32, b: u32) -> bool {
    exists|i: int, a: int|
        #![trigger v[i].1[a]]
        0 <= i < v.len() && 0 <= a < v[i].1.len() && v[i].0 == s && v[i].1[a].0 == b
}

/// The list holds exactly the bindings of the map, keyed by (set, binding),
/// in ascending order.
pub open spec fn describes(v: Seq<(u32, Seq<(u32, DType)>)>, m: Map<(u32, u32), DType>) -> bool {
    &&& sets_sorted(v)
    &&& forall|i: int, a: int|
        #![trigger v[i].1[a]]
        0 <= i < v.len() && 0 <= a < v[i].1.len() ==> m.contains_key((v[i].0, v[i].1[a].0))
            && m[(v[i].0, v[i].1[a].0)] == v[i].1[a].1
    &&& forall|k: (u32, u32)| #[trigger] m.contains_key(k) ==> lists(v, k.0, k.1)
}

/// Whether a list of numbers is strictly ascending.
pub open spec fn strictly_ascending(a: Seq<u32>) -> bool {
    forall|i: int, j: int| #![trigger a[i], a[j]] 0 <= i < j < a.len() ==> a[i] < a[j]
}

/// Two strictly ascending lists that hold the same numbers are equal.
proof fn lemma_ascending_unique(a: Seq<u32>, b: Seq<u32>)
    requires
        strictly_ascending(a),
        strictly_ascending(b),
        forall|i: int| 0 <= i < a.len() ==> b.contains(#[trigger] a[i]),
        forall|j: int| 0 <= j < b.len() ==> a.contains(#[trigger] b[j]),
    ensures
        a == b,
    decreases a.len() + b.len(),
{
    if a.len() == 0 {
        if b.len() > 0 {
            assert(a.contains(b[0]));
        }
        assert(a =~= b);
    } else if b.len() == 0 {
        assert(b.contains(a[0]));
    } else {
        assert(b.contains(a[0]));
        assert(a.contains(b[0]));
        let j = choose|j: int| 0 <= j < b.len() && b[j] == a[0];
        let i = choose|i: int| 0 <= i < a.len() && a[i] == b[0];
        if i > 0 {
            assert(a[0] < a[i]);
        }
        if j > 0 {
            assert(b[0] < b[j]);
        }
        let a1 = a.subrange(1, a.len() as int);
        let b1 = b.subrange(1, b.len() as int);
        assert forall|x: int| 0 <= x < a1.len() implies b1.contains(#[trigger] a1[x]) by {
            assert(a1[x] == a[x + 1]);
            assert(a[0] < a[x + 1]);
            assert(b.contains(a[x + 1]));
            let y = choose|y: int| 0 <= y < b.len() && b[y] == a[x + 1];
            assert(y != 0);
            assert(b1[y - 1] == b[y]);
        }
        assert forall|y: int| 0 <= y < b1.len() implies a1.contains(#[trigger] b1[y]) by {
            assert(b1[y] == b[y + 1]);
            assert(b[0] < b[y + 1]);
            assert(a.contains(b[y + 1]));
            let x = choose|x: int| 0 <= x < a.len() && a[x] == b[y + 1];
            assert(x != 0);
            assert(a1[x - 1] == a[x]);
        }
        assert(strictly_ascending(a1)) by {
            assert forall|x: int, y: int| #![trigger a1[x], a1[y]] 0 <= x < y < a1.len() implies a1[x] < a1[y] by {
                assert(a1[x] == a[x + 1] && a1[y] == a[y + 1]);
            }
        }
        assert(strictly_ascending(b1)) by {
            assert forall|x: int, y: int| #![trigger b1[x], b1[y]] 0 <= x < y < b1.len() implies b1[x] < b1[y] by {
                assert(b1[x] == b[x + 1] && b1[y] == b[y + 1]);
            }
        }
        lemma_ascending_unique(a1, b1);
        assert(a =~= b) by {
            assert forall|x: int| 0 <= x < a.len() implies a[x] == b[x] by {
                if x > 0 {
                    assert(a[x] == a1[x - 1] && b[x] == b1[x - 1]);
                }
            }
        }
    }
}

/// The set numbers of a list of descriptor sets.
pub open spec fn set_numbers(v: Seq<(u32, Seq<(u32, DType)>)>) -> Seq<u32> {
    Seq::new(v.len(), |i: int| v[i].0)
}

/// The binding numbers of a set's bindings.
pub open spec fn binding_numbers(b: Seq<(u32, DType)>) -> Seq<u32> {
    Seq::new(b.len(), |i: int| b[i].0)
}

/// Where a binding of set `s` is listed, it is listed in the set at `i`,
/// the one entry for `s`.
proof fn lemma_listed_in_set(v: Seq<(u32, Seq<(u32, DType)>)>, i: int, b: u32)
    requires
        sets_sorted(v),
        0 <= i < v.len(),
        lists(v, v[i].0, b),
    ensures
        exists|a: int| 0 <= a < v[i].1.len() && (#[trigger] v[i].1[a]).0 == b,
{
    let (j, x) = choose|j: int, x: int|
        #![trigger v[j].1[x]]
        0 <= j < v.len() && 0 <= x < v[j].1.len() && v[j].0 == v[i].0 && v[j].1[x].0 == b;
    if j < i {
        assert(v[j].0 < v[i].0);
    } else if j > i {
        assert(v[i].0 < v[j].0);
    }
    assert(v[i].1[x].0 == b);
}

/// A map of uniforms has one description: the sorted list of its sets,
/// each with its sorted bindings, is unique.
pub proof fn lemma_describes_unique(v1: Seq<(u32, Seq<(u32, DType)>)>, v2: Seq<(u32, Seq<(u32, DType)>)>, m: Map<(u32, u32), DType>)
    requires
        describes(v1, m),
        describes(v2, m),
    ensures
        v1 == v2,
{
    let s1 = set_numbers(v1);
    let s2 = set_numbers(v2);
    assert forall|i: int| 0 <= i < s1.len() implies s2.contains(#[trigger] s1[i]) by {
        assert(v1[i].1.len() > 0);
        assert(m.contains_key((v1[i].0, v1[i].1[0].0)));
        assert(lists(v2, v1[i].0, v1[i].1[0].0));
        let (j, x) = choose|j: int, x: int|
            #![trigger v2[j].1[x]]
            0 <= j < v2.len() && 0 <= x < v2[j].1.len() && v2[j].0 == v1[i].0 && v2[j].1[x].0 == v1[i].1[0].0;
        assert(s2[j] == s1[i]);
    }
    assert forall|j: int| 0 <= j < s2.len() implies s1.contains(#[trigger] s2[j]) by {
        assert(v2[j].1.len() > 0);
        assert(m.contains_key((v2[j].0, v2[j].1[0].0)));
        assert(lists(v1, v2[j].0, v2[j].1[0].0));
        let (i, x) = choose|i: int, x: int|
            #![trigger v1[i].1[x]]
            0 <= i < v1.len() && 0 <= x < v1[i].1.len() && v1[i].0 == v2[j].0 && v1[i].1[x].0 == v2[j].1[0].0;
        assert(s1[i] == s2[j]);
    }
    assert(strictly_ascending(s1)) by {
        assert forall|x: int, y: int| #![trigger s1[x], s1[y]] 0 <= x < y < s1.len() implies s1[x] < s1[y] by {
            assert(v1[x].0 < v1[y].0);
        }
    }
    assert(strictly_ascending(s2)) by {
        assert forall|x: int, y: int| #![trigger s2[x], s2[y]] 0 <= x < y < s2.len() implies s2[x] < s2[y] by {
            assert(v2[x].0 < v2[y].0);
        }
    }
    lemma_ascending_unique(s1, s2);
    assert(v1.len() == v2.len());
    assert forall|i: int| 0 <= i < v1.len() implies v1[i] == v2[i] by {
        assert(s1[i] == s2[i]);
        let s = v1[i].0;
        let b1 = binding_numbers(v1[i].1);
        let b2 = binding_numbers(v2[i].1);
        assert forall|a: int| 0 <= a < b1.len() implies b2.contains(#[trigger] b1[a]) by {
            assert(m.contains_key((s, v1[i].1[a].0)));
            assert(lists(v2, v2[i].0, v1[i].1[a].0));
            lemma_listed_in_set(v2, i, v1[i].1[a].0);
            let x = choose|x: int| 0 <= x < v2[i].1.len() && (#[trigger] v2[i].1[x]).0 == v1[i].1[a].0;
            assert(b2[x] == b1[a]);
        }
        assert forall|a: int| 0 <= a < b2.len() implies b1.contains(#[trigger] b2[a]) by {
            assert(m.contains_key((s, v2[i].1[a].0)));
            assert(lists(v1, v1[i].0, v2[i].1[a].0));
            lemma_listed_in_set(v1, i, v2[i].1[a].0);
            let x = choose|x: int| 0 <= x < v1[i].1.len() && (#[trigger] v1[i].1[x]).0 == v2[i].1[a].0;
            assert(b1[x] == b2[a]);
        }
        assert(strictly_ascending(b1)) by {
            assert forall|x: int, y: int| #![trigger b1[x], b1[y]] 0 <= x < y < b1.len() implies b1[x] < b1[y] by {
                assert(v1[i].1[x].0 < v1[i].1[y].0);
            }
        }
        assert(strictly_ascending(b2)) by {
            assert forall|x: int, y: int| #![trigger b2[x], b2[y]] 0 <= x < y < b2.len() implies b2[x] < b2[y] by {
                assert(v2[i].1[x].0 < v2[i].1[y].0);
            }
        }
        lemma_ascending_unique(b1, b2);
        assert forall|a: int| 0 <= a < v1[i].1.len() implies v1[i].1[a] == v2[i].1[a] by {
            assert(b1[a] == b2[a]);
            assert(m[(s, v1[i].1[a].0)] == v1[i].1[a].1);
            assert(m[(v2[i].0, v2[i].1[a].0)] == v2[i].1[a].1);
        }
        assert(v1[i].1 =~= v2[i].1);
    }
    assert(v1 =~= v2);
}

proof fn lemma_lists_witness(v: Seq<(u32, Seq<(u32, DType)>)>, i: int, a: int)
    requires
        0 <= i < v.len(),
        0 <= a < v[i].1.len(),
    ensures
        lists(v, v[i].0, v[i].1[a].0),
{
}

/// Adding a binding to an existing set at its ordered place keeps the list a
/// description of the map with that binding added.
proof fn lemma_insert_binding(
    v: Seq<(u32, Seq<(u32, DType)>)>,
    m: Map<(u32, u32), DType>,
    i: int,
    a: int,
    b: u32,
    d: DType,
)
    requires
        describes(v, m),
        0 <= i < v.len(),
        0 <= a <= v[i].1.len(),
        forall|x: int| 0 <= x < a ==> (#[trigger] v[i].1[x]).0 < b,
        forall|x: int| a <= x < v[i].1.len() ==> (#[trigger] v[i].1[x]).0 > b,
        !m.contains_key((v[i].0, b)),
    ensures
        describes(v.update(i, (v[i].0, v[i].1.insert(a, (b, d)))), m.insert((v[i].0, b), d)),
{
    let s = v[i].0;
    let nb = v[i].1.insert(a, (b, d));
    let v2 = v.update(i, (s, nb));
    let m2 = m.insert((s, b), d);
    assert forall|x: int, y: int| 0 <= x < y < nb.len() implies nb[x].0 < nb[y].0 by {
        if y < a {
        } else if y == a {
        } else if x < a {
            assert(nb[y] == v[i].1[y - 1]);
        } else if x == a {
            assert(nb[y] == v[i].1[y - 1]);
        } else {
            assert(nb[x] == v[i].1[x - 1]);
            assert(nb[y] == v[i].1[y - 1]);
        }
    }
    assert forall|j: int, x: int, y: int|
        #![trigger v2[j].1[x], v2[j].1[y]]
        0 <= j < v2.len() && 0 <= x < y < v2[j].1.len() implies v2[j].1[x].0 < v2[j].1[y].0 by {
        if j == i {
            assert(v2[j].1 == nb);
        } else {
            assert(v2[j] == v[j]);
        }
    }
    assert forall|j: int, x: int|
        #![trigger v2[j].1[x]]
        0 <= j < v2.len() && 0 <= x < v2[j].1.len() implies m2.contains_key((v2[j].0, v2[j].1[x].0))
            && m2[(v2[j].0, v2[j].1[x].0)] == v2[j].1[x].1 by {
        if j == i {
            if x < a {
                assert(v2[j].1[x] == v[i].1[x]);
                assert(m.contains_key((v[i].0, v[i].1[x].0)));
            } else if x == a {
            } else {
                assert(v2[j].1[x] == v[i].1[x - 1]);
                assert(m.contains_key((v[i].0, v[i].1[x - 1].0)));
            }
        } else {
            assert(v2[j] == v[j]);
            assert(m.contains_key((v[j].0, v[j].1[x].0)));
        }
    }
    assert forall|k: (u32, u32)| #[trigger] m2.contains_key(k) implies lists(v2, k.0, k.1) by {
        if k == (s, b) {
            assert(v2[i].1[a] == (b, d));
            lemma_lists_witness(v2, i, a);
        } else {
            assert(m.contains_key(k));
            assert(lists(v, k.0, k.1));
            let (j, x) = choose|j: int, x: int|
                #![trigger v[j].1[x]]
                0 <= j < v.len() && 0 <= x < v[j].1.len() && v[j].0 == k.0 && v[j].1[x].0 == k.1;
            if j == i {
                if x < a {
                    assert(v2[j].1[x] == v[j].1[x]);
                    lemma_lists_witness(v2, j, x);
                } else {
                    assert(v2[j].1[x + 1] == v[j].1[x]);
                    lemma_lists_witness(v2, j, x + 1);
                }
            } else {
                assert(v2[j] == v[j]);
                lemma_lists_witness(v2, j, x);
            }
        }
    }
}

/// Adding a new set with one binding at its ordered place keeps the list a
/// description of the map with that binding added.
proof fn lemma_insert_set(
    v: Seq<(u32, Seq<(u32, DType)>)>,
    m: Map<(u32, u32), DType>,
    i: int,
    s: u32,
    b: u32,
    d: DType,
)
    requires
        describes(v, m),
        0 <= i <= v.len(),
        forall|x: int| 0 <= x < i ==> (#[trigger] v[x]).0 < s,
        forall|x: int| i <= x < v.len() ==> (#[trigger] v[x]).0 > s,
    ensures
        !m.contains_key((s, b)),
        describes(v.insert(i, (s, seq![(b, d)])), m.insert((s, b), d)),
{
    let v2 = v.insert(i, (s, seq![(b, d)]));
    let m2 = m.insert((s, b), d);
    if m.contains_key((s, b)) {
        assert(lists(v, s, b));
        let (j, x) = choose|j: int, x: int|
            #![trigger v[j].1[x]]
            0 <= j < v.len() && 0 <= x < v[j].1.len() && v[j].0 == s && v[j].1[x].0 == b;
        assert(v[j].0 == s);
    }
    assert forall|x: int, y: int| #![trigger v2[x], v2[y]] 0 <= x < y < v2.len() implies v2[x].0 < v2[y].0 by {
        if y < i {
        } else if y == i {
        } else if x < i {
            assert(v2[y] == v[y - 1]);
        } else if x == i {
            assert(v2[y] == v[y - 1]);
        } else {
            assert(v2[x] == v[x - 1]);
            assert(v2[y] == v[y - 1]);
        }
    }
    assert forall|j: int| 0 <= j < v2.len() implies (#[trigger] v2[j]).1.len() > 0 by {
        if j < i {
        } else if j > i {
            assert(v2[j] == v[j - 1]);
        }
    }
    assert forall|j: int, x: int, y: int|
        #![trigger v2[j].1[x], v2[j].1[y]]
        0 <= j < v2.len() && 0 <= x < y < v2[j].1.len() implies v2[j].1[x].0 < v2[j].1[y].0 by {
        if j < i {
        } else if j > i {
            assert(v2[j] == v[j - 1]);
        }
    }
    assert forall|j: int, x: int|
        #![trigger v2[j].1[x]]
        0 <= j < v2.len() && 0 <= x < v2[j].1.len() implies m2.contains_key((v2[j].0, v2[j].1[x].0))
            && m2[(v2[j].0, v2[j].1[x].0)] == v2[j].1[x].1 by {
        if j < i {
            assert(m.contains_key((v[j].0, v[j].1[x].0)));
        } else if j > i {
            assert(v2[j] == v[j - 1]);
            assert(m.contains_key((v[j - 1].0, v[j - 1].1[x].0)));
        }
    }
    assert forall|k: (u32, u32)| #[trigger] m2.contains_key(k) implies lists(v2, k.0, k.1) by {
        if k == (s, b) {
            assert(v2[i].1[0] == (b, d));
            lemma_lists_witness(v2, i, 0);
        } else {
            assert(m.contains_key(k));
            assert(lists(v, k.0, k.1));
            let (j, x) = choose|j: int, x: int|
                #![trigger v[j].1[x]]
                0 <= j < v.len() && 0 <= x < v[j].1.len() && v[j].0 == k.0 && v[j].1[x].0 == k.1;
            if j < i {
                assert(v2[j] == v[j]);
                lemma_lists_witness(v2, j, x);
            } else {
                assert(v2[j + 1] == v[j]);
                lemma_lists_witness(v2, j + 1, x);
            }
        }
    }
}

/// Adds binding `binding` of set `set` to an ordered list of descriptor sets,
/// unless that binding of that set is listed already.
pub(crate) fn insert_uniform(
    uniforms: &mut Vec<DescriptorSet>,
    set: u32,
    binding: u32,
    data_type: DataType,
    Ghost(m): Ghost<Map<(u32, u32), DType>>,
)
    requires
        describes(sets_view(old(uniforms)@), m),
    ensures
        describes(
            sets_view(final(uniforms)@),
            if m.contains_key((set, binding)) { m } else { m.insert((set, binding), data_type@) },
        ),
{
    let ghost v = sets_view(uniforms@);
    let mut i: usize = 0;
    while i < uniforms.len() && uniforms[i].set < set
        invariant
            i <= uniforms.len(),
            v == sets_view(uniforms@),
            forall|x: int| 0 <= x < i ==> (#[trigger] v[x]).0 < set,
        decreases uniforms.len() - i,
    {
        i = i + 1;
    }
    if i < uniforms.len() && uniforms[i].set == set {
        let ghost bv = v[i as int].1;
        let mut a: usize = 0;
        while a < uniforms[i].bindings.len() && uniforms[i].bindings[a].binding < binding
            invariant
                i < uniforms.len(),
                a <= uniforms[i as int].bindings.len(),
                v == sets_view(uniforms@),
                bv == v[i as int].1,
                forall|x: int| 0 <= x < a ==> (#[trigger] bv[x]).0 < binding,
            decreases uniforms[i as int].bindings.len() - a,
        {
            a = a + 1;
        }
        assert(bv.len() == uniforms[i as int].bindings.len());
        if a < uniforms[i].bindings.len() && uniforms[i].bindings[a].binding == binding {
            assert(bv[a as int].0 == binding);
            assert(m.contains_key((v[i as int].0, bv[a as int].0)));
            return;
        }
        assert forall|x: int| a <= x < bv.len() implies (#[trigger] bv[x]).0 > binding by {
            assert(bv[a as int].0 > binding);
            if x > a {
                assert(v[i as int].1[a as int].0 < v[i as int].1[x].0);
            }
        }
        assert(!m.contains_key((set, binding))) by {
            if m.contains_key((set, binding)) {
                assert(lists(v, set, binding));
                let (j, x) = choose|j: int, x: int|
                    #![trigger v[j].1[x]]
                    0 <= j < v.len() && 0 <= x < v[j].1.len() && v[j].0 == set && v[j].1[x].0 == binding;
                if j < i {
                    assert(v[j].0 < set);
                } else if j > i {
                    assert(v[i as int].0 < v[j].0);
                } else {
                    assert(bv[x].0 == binding);
                }
            }
        }
        proof {
            lemma_insert_binding(v, m, i as int, a as int, binding, data_type@);
        }
        let ghost d = data_type@;
        let mut entry = uniforms.remove(i);
        entry.bindings.insert(a, DescriptorBinding { binding, data_type });
        uniforms.insert(i, entry);
        assert(entry@.1 =~= bv.insert(a as int, (binding, d)));
        assert(sets_view(uniforms@) =~= v.update(i as int, (set, bv.insert(a as int, (binding, d)))));
    } else {
        assert forall|x: int| i <= x < v.len() implies (#[trigger] v[x]).0 > set by {
            assert(v[i as int].0 > set);
            if x > i {
                assert(v[i as int].0 < v[x].0);
            }
        }
        proof {
            lemma_insert_set(v, m, i as int, set, binding, data_type@);
        }
        let ghost d = data_type@;
        let mut bindings: Vec<DescriptorBinding> = Vec::new();
        bindings.push(DescriptorBinding { binding, data_type });
        let entry = DescriptorSet { set, bindings };
        assert(entry@.1 =~= seq![(binding, d)]);
        uniforms.insert(i, entry);
        assert(sets_view(uniforms@) =~= v.insert(i as int, (set, seq![(binding, d)])));
    }
}


/// A SPIR-V module together with what the interpreter read from it.
#[derive(Debug)]
pub struct SpirvShader {
    binary: Vec<u32>,
    shader_stage: ShaderStage,
    inputs: Vec<DataType>,
    outputs: Vec<DataType>,
    uniforms: Vec<DescriptorSet>,
}

/// What the interpreter read from a SPIR-V module, without the module.
pub struct SpirvShaderInfo {
    shader_stage: ShaderStage,
    inputs: Vec<DataType>,
    outputs: Vec<DataType>,
    uniforms: Vec<DescriptorSet>,
}

/// Whether the interpreter accepts the module: it can read both its stage
/// and its variable layout.
pub open spec fn accepts_module(binary: Seq<u32>) -> bool {
    &&& spec_shader_stage(binary) is Some
    &&& module_state(binary, false) is Some
}

impl SpirvShader {
    /// The words of the module.
    pub closed spec fn binary_view(&self) -> Seq<u32> {
        self.binary@
    }

    /// The stage read from the module.
    pub closed spec fn stage_view(&self) -> ShaderStage {
        self.shader_stage
    }

    /// The data types of the input variables.
    pub closed spec fn inputs_view(&self) -> Seq<DType> {
        types_view(self.inputs@)
    }

    /// The data types of the output variables.
    pub closed spec fn outputs_view(&self) -> Seq<DType> {
        types_view(self.outputs@)
    }

    /// The uniform variables, grouped by set.
    pub closed spec fn uniforms_view(&self) -> Seq<(u32, Seq<(u32, DType)>)> {
        sets_view(self.uniforms@)
    }

    /// What was read is what the interpreter reads from the module.
    #[verifier::type_invariant]
    closed spec fn read_from_binary(&self) -> bool {
        &&& accepts_module(self.binary@)
        &&& spec_shader_stage(self.binary@) == Some(self.shader_stage)
        &&& is_layout_of(
            types_view(self.inputs@),
            types_view(self.outputs@),
            sets_view(self.uniforms@),
            module_state(self.binary@, false).unwrap(),
        )
    }

    /// Reads the stage and the variable layout of a module.
    pub fn from_binary(binary: Vec<u32>) -> (r: SpirvShader)
        requires
            accepts_module(binary@),
        ensures
            r.binary_view() == binary@,
            spec_shader_stage(binary@) == Some(r.stage_view()),
            is_layout_of(r.inputs_view(), r.outputs_view(), r.uniforms_view(), module_state(binary@, false).unwrap()),
    {
        let stage = Interpreter::get_shader_stage(binary.as_slice());
        let (inputs, outputs, uniforms) = Interpreter::get_variable_layout(binary.as_slice());
        SpirvShader { binary: binary, shader_stage: stage, inputs: inputs, outputs: outputs, uniforms: uniforms }
    }

    /// Drops the module and keeps what was read from it.
    pub fn discard_binary(self) -> (r: SpirvShaderInfo)
        ensures
            r.stage_view() == self.stage_view(),
            r.inputs_view() == self.inputs_view(),
            r.outputs_view() == self.outputs_view(),
            r.uniforms_view() == self.uniforms_view(),
    {
        SpirvShaderInfo {
            shader_stage: self.shader_stage,
            inputs: self.inputs,
            outputs: self.outputs,
            uniforms: self.uniforms,
        }
    }

    /// The words of the module.
    pub fn get_binary(&self) -> (r: &[u32])
        ensures
            r@ == self.binary_view(),
    {
        self.binary.as_slice()
    }

    /// The stage of the module, that of its first entry point.
    pub fn get_stage(&self) -> (r: &ShaderStage)
        ensures
            *r == self.stage_view(),
            spec_shader_stage(self.binary_view()) == Some(*r),
    {
        proof {
            use_type_invariant(self);
        }
        &self.shader_stage
    }

    /// The data types of the input variables, by ascending id.
    pub fn get_inputs(&self) -> (r: &[DataType])
        ensures
            types_view(r@) == self.inputs_view(),
            self.inputs_view() == variables_of(
                module_state(self.binary_view(), false).unwrap().ids,
                StorageClass::Input,
                module_state(self.binary_view(), false).unwrap().ids.len() as int,
            ),
    {
        proof {
            use_type_invariant(self);
        }
        self.inputs.as_slice()
    }

    /// The data types of the output variables, by ascending id.
    pub fn get_outputs(&self) -> (r: &[DataType])
        ensures
            types_view(r@) == self.outputs_view(),
            self.outputs_view() == variables_of(
                module_state(self.binary_view(), false).unwrap().ids,
                StorageClass::Output,
                module_state(self.binary_view(), false).unwrap().ids.len() as int,
            ),
    {
        proof {
            use_type_invariant(self);
        }
        self.outputs.as_slice()
    }

    /// The uniform variables, grouped by set in ascending order.
    pub fn get_uniforms(&self) -> (r: &[DescriptorSet])
        ensures
            sets_view(r@) == self.uniforms_view(),
            describes(
                self.uniforms_view(),
                uniforms_of(
                    module_state(self.binary_view(), false).unwrap().ids,
                    module_state(self.binary_view(), false).unwrap().decorations,
                    module_state(self.binary_view(), false).unwrap().ids.len() as int,
                ),
            ),
    {
        proof {
            use_type_invariant(self);
        }
        self.uniforms.as_slice()
    }
}

impl SpirvShaderInfo {
    /// The stage read from the module.
    pub closed spec fn stage_view(&self) -> ShaderStage {
        self.shader_stage
    }

    /// The data types of the input variables.
    pub closed spec fn inputs_view(&self) -> Seq<DType> {
        types_view(self.inputs@)
    }

    /// The data types of the output variables.
    pub closed spec fn outputs_view(&self) -> Seq<DType> {
        types_view(self.outputs@)
    }

    /// The uniform variables, grouped by set.
    pub closed spec fn uniforms_view(&self) -> Seq<(u32, Seq<(u32, DType)>)> {
        sets_view(self.uniforms@)
    }

    /// The stage read from the module.
    pub fn get_stage(&self) -> (r: &ShaderStage)
        ensures
            *r == self.stage_view(),
    {
        &self.shader_stage
    }

    /// The data types of the input variables.
    pub fn get_inputs(&self) -> (r: &[DataType])
        ensures
            types_view(r@) == self.inputs_view(),
    {
        self.inputs.as_slice()
    }

    /// The data types of the output variables.
    pub fn get_outputs(&self) -> (r: &[DataType])
        ensures
            types_view(r@) == self.outputs_view(),
    {
        self.outputs.as_slice()
    }

    /// The uniform variables, grouped by set.
    pub fn get_uniforms(&self) -> (r: &[DescriptorSet])
        ensures
            sets_view(r@) == self.uniforms_view(),
    {
        self.uniforms.as_slice()
    }
}

} // verus!
