use vstd::prelude::*;

verus! {

/// The queue capability bit for graphics work.
pub const QUEUE_GRAPHICS: u32 = 0x1;

/// The queue capability bit for transfer work.
pub const QUEUE_TRANSFER: u32 = 0x4;

/// The kind of a physical device.
#[derive(Debug, Clone, Copy, PartialEq, Eq, Structural)]
pub enum DeviceKind {
    DiscreteGpu,
    IntegratedGpu,
    VirtualGpu,
    Cpu,
    Other,
    Unrecognized,
}

/// How much a device of each kind is preferred: lower is better.
pub open spec fn kind_rank(k: DeviceKind) -> u32 {
    match k {
        DeviceKind::DiscreteGpu => 0,
        DeviceKind::IntegratedGpu => 1,
        DeviceKind::VirtualGpu => 2,
        DeviceKind::Cpu => 3,
        DeviceKind::Other => 4,
        DeviceKind::Unrecognized => 5,
    }
}

/// What the engine knows of a physical device when it picks one.
#[derive(Debug, Clone)]
pub struct DeviceCandidate {
    pub supports_extensions: bool,
    pub supports_features: bool,
    pub family_flags: Vec<u32>,
    pub kind: DeviceKind,
}

/// The union of the capability bits of a list of queue families.
pub open spec fn union_flags(f: Seq<u32>) -> u32
    decreases f.len(),
{
    if f.len() == 0 {
        0
    } else {
        union_flags(f.drop_last()) | f.last()
    }
}

/// Whether a set of capability bits holds `bit`.
pub open spec fn has_flag(flags: u32, bit: u32) -> bool {
    flags & bit == bit
}

/// Whether a device can be used: it supports the extensions and features the
/// engine needs, and its queue families together can do graphics and
/// transfer work.
pub open spec fn eligible(c: DeviceCandidate) -> bool {
    &&& c.supports_extensions
    &&& c.supports_features
    &&& has_flag(union_flags(c.family_flags@), QUEUE_GRAPHICS)
    &&& has_flag(union_flags(c.family_flags@), QUEUE_TRANSFER)
}

/// `i` is the first of the eligible devices of best rank.
pub open spec fn is_preferred(c: Seq<DeviceCandidate>, i: int) -> bool {
    &&& 0 <= i < c.len()
    &&& eligible(c[i])
    &&& forall|j: int| 0 <= j < c.len() && eligible(#[trigger] c[j]) ==> kind_rank(c[i].kind) <= kind_rank(c[j].kind)
    &&& forall|j: int| 0 <= j < i && eligible(#[trigger] c[j]) ==> kind_rank(c[i].kind) < kind_rank(c[j].kind)
}

/// The device chosen is of the most preferred kind among the eligible ones,
/// in the order discrete GPU, integrated GPU, virtual GPU, CPU, other,
/// unrecognised; and no eligible device before it is of its kind.
pub proof fn lemma_preferred_kind_order(c: Seq<DeviceCandidate>, i: int, j: int)
    requires
        is_preferred(c, i),
        0 <= j < c.len(),
        eligible(c[j]),
    ensures
        c[j].kind == DeviceKind::DiscreteGpu ==> c[i].kind == DeviceKind::DiscreteGpu,
        c[j].kind == DeviceKind::IntegratedGpu ==> (c[i].kind == DeviceKind::DiscreteGpu || c[i].kind
            == DeviceKind::IntegratedGpu),
        c[j].kind == DeviceKind::VirtualGpu ==> (c[i].kind == DeviceKind::DiscreteGpu || c[i].kind
            == DeviceKind::IntegratedGpu || c[i].kind == DeviceKind::VirtualGpu),
        c[j].kind == DeviceKind::Cpu ==> (c[i].kind != DeviceKind::Other && c[i].kind != DeviceKind::Unrecognized),
        c[j].kind == DeviceKind::Other ==> c[i].kind != DeviceKind::Unrecognized,
        j < i ==> c[j].kind != c[i].kind,
{
    assert(kind_rank(c[i].kind) <= kind_rank(c[j].kind));
    if j < i {
        assert(kind_rank(c[i].kind) < kind_rank(c[j].kind));
    }
}

/// An eligible discrete GPU is always chosen over an eligible integrated
/// GPU, whatever their places in the list.
pub proof fn lemma_discrete_before_integrated(c: Seq<DeviceCandidate>, i: int, d: int, g: int)
    requires
        is_preferred(c, i),
        0 <= d < c.len(),
        0 <= g < c.len(),
        eligible(c[d]),
        eligible(c[g]),
        c[d].kind == DeviceKind::DiscreteGpu,
        c[g].kind == DeviceKind::IntegratedGpu,
    ensures
        i != g,
        c[i].kind == DeviceKind::DiscreteGpu,
{
    lemma_preferred_kind_order(c, i, d);
}

fn rank_of(k: DeviceKind) -> (r: u32)
    ensures
        r == kind_rank(k),
{
    match k {
        DeviceKind::DiscreteGpu => 0,
        DeviceKind::IntegratedGpu => 1,
        DeviceKind::VirtualGpu => 2,
        DeviceKind::Cpu => 3,
        DeviceKind::Other => 4,
        DeviceKind::Unrecognized => 5,
    }
}

/// The union of the capability bits of the queue families.
pub fn family_union(f: &Vec<u32>) -> (r: u32)
    ensures
        r == union_flags(f@),
{
    let mut flags: u32 = 0;
    let mut i: usize = 0;
    while i < f.len()
        invariant
            i <= f@.len(),
            flags == union_flags(f@.take(i as int)),
        decreases f@.len() - i,
    {
        assert(f@.take(i + 1).drop_last() =~= f@.take(i as int));
        flags = flags | f[i];
        i = i + 1;
    }
    assert(f@.take(f@.len() as int) =~= f@);
    flags
}

/// Picks the device to run on: the first of the eligible devices of the
/// most preferred kind, or `None` where no device is eligible.
pub fn select_physical_device(candidates: &[DeviceCandidate]) -> (r: Option<usize>)
    ensures
        r matches Some(i) ==> is_preferred(candidates@, i as int),
        r is None ==> forall|j: int| 0 <= j < candidates@.len() ==> !eligible(#[trigger] candidates@[j]),
{
    let mut best: Option<usize> = None;
    let mut best_rank: u32 = 0;
    let mut i: usize = 0;
    while i < candidates.len()
        invariant
            i <= candidates@.len(),
            best is None ==> forall|j: int| 0 <= j < i ==> !eligible(#[trigger] candidates@[j]),
            best matches Some(b) ==> {
                &&& b < i
                &&& eligible(candidates@[b as int])
                &&& best_rank == kind_rank(candidates@[b as int].kind)
                &&& forall|j: int| 0 <= j < i && eligible(#[trigger] candidates@[j]) ==> best_rank <= kind_rank(candidates@[j].kind)
                &&& forall|j: int| 0 <= j < b && eligible(#[trigger] candidates@[j]) ==> best_rank < kind_rank(candidates@[j].kind)
            },
        decreases candidates@.len() - i,
    {
        let c = &candidates[i];
        let flags = family_union(&c.family_flags);
        if c.supports_extensions && c.supports_features && flags & QUEUE_GRAPHICS == QUEUE_GRAPHICS
            && flags & QUEUE_TRANSFER == QUEUE_TRANSFER {
            let rank = rank_of(c.kind);
            match best {
                None => {
                    best = Some(i);
                    best_rank = rank;
                },
                Some(_) => {
                    if rank < best_rank {
                        best = Some(i);
                        best_rank = rank;
                    }
                },
            }
        }
        i = i + 1;
    }
    best
}

/// The number of capability bits set.
pub open spec fn flag_count(x: nat) -> nat
    decreases x,
{
    if x == 0 {
        0
    } else {
        x % 2 + flag_count(x / 2)
    }
}

/// Counts the capability bits set in `flags`.
pub fn count_flags(flags: u32) -> (r: u32)
    ensures
        r == flag_count(flags as nat),
{
    let mut x: u32 = flags;
    let mut c: u32 = 0;
    proof {
        lemma_flag_count_bound(flags as nat);
    }
    while x > 0
        invariant
            c + flag_count(x as nat) == flag_count(flags as nat),
            flag_count(x as nat) <= x,
            flag_count(flags as nat) <= u32::MAX,
        decreases x,
    {
        proof {
            lemma_flag_count_bound((x / 2) as nat);
        }
        c = c + x % 2;
        x = x / 2;
    }
    c
}

proof fn lemma_flag_count_bound(x: nat)
    ensures
        flag_count(x) <= x,
    decreases x,
{
    if x > 0 {
        lemma_flag_count_bound(x / 2);
    }
}

/// `g` is the graphics family the engine picks: among the families that can
/// do graphics, one with the most queues, the last such one.
pub open spec fn is_graphics_family(f: Seq<(u32, u32)>, g: int) -> bool {
    &&& 0 <= g < f.len()
    &&& has_flag(f[g].0, QUEUE_GRAPHICS)
    &&& forall|j: int| 0 <= j < f.len() && has_flag((#[trigger] f[j]).0, QUEUE_GRAPHICS) ==> f[j].1 <= f[g].1
    &&& forall|j: int| g < j < f.len() && has_flag((#[trigger] f[j]).0, QUEUE_GRAPHICS) ==> f[j].1 < f[g].1
}

/// Whether family `j` can serve as the transfer family beside graphics family `g`.
pub open spec fn transfer_candidate(f: Seq<(u32, u32)>, g: int, j: int) -> bool {
    j != g && has_flag(f[j].0, QUEUE_TRANSFER)
}

/// `t` is the transfer family the engine picks beside graphics family `g`:
/// among the other families that can do transfer work, one with the fewest
/// capabilities, the first such one.
pub open spec fn is_transfer_family(f: Seq<(u32, u32)>, g: int, t: int) -> bool {
    &&& 0 <= t < f.len()
    &&& transfer_candidate(f, g, t)
    &&& forall|j: int| 0 <= j < f.len() && #[trigger] transfer_candidate(f, g, j) ==> flag_count(f[t].0 as nat) <= flag_count(f[j].0 as nat)
    &&& forall|j: int| 0 <= j < t && #[trigger] transfer_candidate(f, g, j) ==> flag_count(f[t].0 as nat) < flag_count(f[j].0 as nat)
}

/// The queues the engine asks for, as ((family, index), (family, index)) for
/// graphics and transfer work: queue 0 of the graphics family, and queue 0 of
/// the transfer family; without another family for transfer work, queue 1 of
/// the graphics family if it has more than one queue, else queue 0 again.
pub open spec fn chosen_queues(f: Seq<(u32, u32)>, r: ((u32, u32), (u32, u32))) -> bool {
    &&& is_graphics_family(f, r.0.0 as int)
    &&& r.0.1 == 0
    &&& if exists|j: int| 0 <= j < f.len() && #[trigger] transfer_candidate(f, r.0.0 as int, j) {
        is_transfer_family(f, r.0.0 as int, r.1.0 as int) && r.1.1 == 0
    } else {
        r.1.0 == r.0.0 && r.1.1 == (if f[r.0.0 as int].1 != 1 { 1u32 } else { 0u32 })
    }
}

/// Picks the queue families for graphics and transfer work from the
/// families of a device, each given as (capability bits, queue count); `None`
/// where no family can do graphics work.
pub fn select_queues(families: &[(u32, u32)]) -> (r: Option<((u32, u32), (u32, u32))>)
    requires
        families@.len() <= u32::MAX,
    ensures
        r matches Some(q) ==> chosen_queues(families@, q),
        r is None ==> forall|j: int| 0 <= j < families@.len() ==> !has_flag((#[trigger] families@[j]).0, QUEUE_GRAPHICS),
{
    let ghost f = families@;
    let n = families.len();
    let mut graphics: Option<usize> = None;
    let mut i: usize = 0;
    while i < n
        invariant
            n == f.len(),
            f == families@,
            i <= n,
            graphics is None ==> forall|j: int| 0 <= j < i ==> !has_flag((#[trigger] f[j]).0, QUEUE_GRAPHICS),
            graphics matches Some(g) ==> {
                &&& g < i
                &&& has_flag(f[g as int].0, QUEUE_GRAPHICS)
                &&& forall|j: int| 0 <= j < i && has_flag((#[trigger] f[j]).0, QUEUE_GRAPHICS) ==> f[j].1 <= f[g as int].1
                &&& forall|j: int| g < j < i && has_flag((#[trigger] f[j]).0, QUEUE_GRAPHICS) ==> f[j].1 < f[g as int].1
            },
        decreases n - i,
    {
        if families[i].0 & QUEUE_GRAPHICS == QUEUE_GRAPHICS {
            match graphics {
                None => {
                    graphics = Some(i);
                },
                Some(g) => {
                    if families[i].1 >= families[g].1 {
                        graphics = Some(i);
                    }
                },
            }
        }
        i = i + 1;
    }
    let g = match graphics {
        None => {
            return None;
        },
        Some(g) => g,
    };
    let mut transfer: Option<usize> = None;
    let mut best_count: u32 = 0;
    let mut i: usize = 0;
    while i < n
        invariant
            n == f.len(),
            f == families@,
            i <= n,
            g < n,
            transfer is None ==> forall|j: int| 0 <= j < i ==> !#[trigger] transfer_candidate(f, g as int, j),
            transfer matches Some(t) ==> {
                &&& t < i
                &&& transfer_candidate(f, g as int, t as int)
                &&& best_count == flag_count(f[t as int].0 as nat)
                &&& forall|j: int| 0 <= j < i && #[trigger] transfer_candidate(f, g as int, j) ==> best_count <= flag_count(f[j].0 as nat)
                &&& forall|j: int| 0 <= j < t && #[trigger] transfer_candidate(f, g as int, j) ==> best_count < flag_count(f[j].0 as nat)
            },
        decreases n - i,
    {
        if i != g && families[i].0 & QUEUE_TRANSFER == QUEUE_TRANSFER {
            let count = count_flags(families[i].0);
            match transfer {
                None => {
                    transfer = Some(i);
                    best_count = count;
                },
                Some(_) => {
                    if count < best_count {
                        transfer = Some(i);
                        best_count = count;
                    }
                },
            }
        }
        i = i + 1;
    }
    let transfer_queue = match transfer {
        Some(t) => (t as u32, 0u32),
        None => {
            if families[g].1 != 1 {
                (g as u32, 1u32)
            } else {
                (g as u32, 0u32)
            }
        },
    };
    Some(((g as u32, 0u32), transfer_queue))
}

} // verus!
