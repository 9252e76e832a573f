//! The description of the machine, as read from a device tree.

use arrayvec::ArrayVec;
use vstd::prelude::*;

verus! {

/// Most harts, and most devices, that a machine description holds.
pub const MAX_ENTRIES: usize = 16;

#[verifier::external_type_specification]
#[verifier::external_body]
#[verifier::reject_recursive_types(T)]
pub struct ExArrayVec<T, const CAP: usize>(ArrayVec<T, CAP>);

/// The pairs that an `ArrayVec` of at most 16 pairs holds, in order.
pub uninterp spec fn pairs_of(list: ArrayVec<(usize, usize), 16>) -> Seq<(usize, usize)>;

/// `ArrayVec::new`: a list that holds nothing.
#[verifier::external_body]
fn pairs_new() -> (list: ArrayVec<(usize, usize), 16>)
    ensures
        pairs_of(list) == Seq::<(usize, usize)>::empty(),
{
    ArrayVec::new()
}

/// `ArrayVec::len`: the number of pairs held, never more than the capacity.
#[verifier::external_body]
fn pairs_len(list: &ArrayVec<(usize, usize), 16>) -> (n: usize)
    ensures
        n == pairs_of(*list).len(),
        n <= MAX_ENTRIES,
{
    list.len()
}

/// `ArrayVec::push`: appends a pair. The outside code panics when the list is full.
#[verifier::external_body]
fn pairs_push(list: &mut ArrayVec<(usize, usize), 16>, pair: (usize, usize))
    requires
        pairs_of(*old(list)).len() < MAX_ENTRIES,
    ensures
        pairs_of(*final(list)) == pairs_of(*old(list)).push(pair),
{
    list.push(pair)
}

/// Indexing an `ArrayVec` as a slice: the pair at position `i`.
#[verifier::external_body]
fn pairs_get(list: &ArrayVec<(usize, usize), 16>, i: usize) -> (pair: (usize, usize))
    requires
        i < pairs_of(*list).len(),
    ensures
        pair == pairs_of(*list)[i as int],
{
    list[i]
}

/// A memory-mapped device window.
#[derive(Clone, Copy, Debug, PartialEq, Eq, Structural)]
pub struct Device {
    pub base_address: usize,
    pub size: usize,
}

/// One core of the machine.
#[derive(Clone, Copy, Debug, PartialEq, Eq, Structural)]
pub struct Hart {
    pub hartid: usize,
    pub plic_context: usize,
}

/// A register window as a device tree gives it: the start and, if stated, the size.
pub type RawRegion = (usize, Option<usize>);

/// The description of the machine that the kernel boots on: its physical memory, its cores
/// and its device windows.
pub struct MachineMeta {
    phys_mem_start: usize,
    phys_mem_size: usize,
    harts: ArrayVec<(usize, usize), 16>,
    virtio: ArrayVec<(usize, usize), 16>,
}

/// The windows of the nodes that have one, in the nodes' order.
pub open spec fn present_windows(nodes: Seq<Option<RawRegion>>) -> Seq<RawRegion>
    decreases nodes.len(),
{
    if nodes.len() == 0 {
        Seq::empty()
    } else {
        match nodes.last() {
            Some(window) => present_windows(nodes.drop_last()).push(window),
            None => present_windows(nodes.drop_last()),
        }
    }
}

/// Start and size of the memory that the regions describe: those of the last region, or
/// nothing where there is no region.
pub open spec fn memory_of(regions: Seq<RawRegion>) -> (usize, usize) {
    if regions.len() == 0 {
        (0, 0)
    } else {
        (regions.last().0, regions.last().1.unwrap())
    }
}

/// Whether [`parse`] accepts what it is given: every size is stated, memory and every device
/// window end inside the address range, and there are at most 16 cores and 16 windows.
pub open spec fn parse_accepts(
    regions: Seq<RawRegion>,
    cpus: Seq<usize>,
    nodes: Seq<Option<RawRegion>>,
) -> bool {
    &&& forall|i: int| 0 <= i < regions.len() ==> (#[trigger] regions[i]).1 is Some
    &&& memory_of(regions).0 + memory_of(regions).1 <= usize::MAX
    &&& cpus.len() <= MAX_ENTRIES
    &&& forall|i: int|
        0 <= i < nodes.len() && (#[trigger] nodes[i]) is Some ==> {
            &&& nodes[i].unwrap().1 is Some
            &&& nodes[i].unwrap().0 + nodes[i].unwrap().1.unwrap() <= usize::MAX
        }
    &&& present_windows(nodes).len() <= MAX_ENTRIES
}

/// `pair` is the window `window` with its size stated, and ends inside the address range.
pub open spec fn holds_window(pair: (usize, usize), window: RawRegion) -> bool {
    &&& window.1 is Some
    &&& pair == (window.0, window.1.unwrap())
    &&& window.0 + window.1.unwrap() <= usize::MAX
}

/// A prefix of the nodes has no more windows than all of them.
proof fn lemma_present_windows_prefix(nodes: Seq<Option<RawRegion>>, i: int)
    requires
        0 <= i <= nodes.len(),
    ensures
        present_windows(nodes.take(i)).len() <= present_windows(nodes).len(),
    decreases nodes.len(),
{
    if i == nodes.len() {
        assert(nodes.take(i) =~= nodes);
    } else {
        assert(nodes.drop_last().take(i) =~= nodes.take(i));
        lemma_present_windows_prefix(nodes.drop_last(), i);
    }
}

impl MachineMeta {
    pub closed spec fn spec_phys_mem_start(&self) -> usize {
        self.phys_mem_start
    }

    pub closed spec fn spec_phys_mem_size(&self) -> usize {
        self.phys_mem_size
    }

    /// Address of the first byte of physical memory.
    #[verifier::when_used_as_spec(spec_phys_mem_start)]
    pub fn phys_mem_start(&self) -> (r: usize)
        ensures
            r == self.spec_phys_mem_start(),
    {
        self.phys_mem_start
    }

    /// Size of physical memory in bytes.
    #[verifier::when_used_as_spec(spec_phys_mem_size)]
    pub fn phys_mem_size(&self) -> (r: usize)
        ensures
            r == self.spec_phys_mem_size(),
    {
        self.phys_mem_size
    }

    /// The cores, in the order in which they were found.
    pub closed spec fn harts(&self) -> Seq<Hart> {
        Seq::new(
            pairs_of(self.harts).len(),
            |i: int| Hart { hartid: pairs_of(self.harts)[i].0, plic_context: pairs_of(self.harts)[i].1 },
        )
    }

    /// The device windows, in the order in which they were found.
    pub closed spec fn devices(&self) -> Seq<Device> {
        Seq::new(
            pairs_of(self.virtio).len(),
            |i: int|
                Device { base_address: pairs_of(self.virtio)[i].0, size: pairs_of(self.virtio)[i].1 },
        )
    }

    /// Memory and every device window end inside the address range, and there are at most 16
    /// cores and 16 windows.
    pub open spec fn wf(&self) -> bool {
        &&& self.spec_phys_mem_start() + self.spec_phys_mem_size() <= usize::MAX
        &&& self.harts().len() <= MAX_ENTRIES
        &&& self.devices().len() <= MAX_ENTRIES
        &&& forall|i: int|
            0 <= i < self.devices().len() ==> (#[trigger] self.devices()[i]).base_address
                + self.devices()[i].size <= usize::MAX
    }

    /// The description of a machine with no memory, no core and no device.
    pub fn new() -> (r: Self)
        ensures
            r.wf(),
            r.spec_phys_mem_start() == 0,
            r.spec_phys_mem_size() == 0,
            r.harts() == Seq::<Hart>::empty(),
            r.devices() == Seq::<Device>::empty(),
    {
        let r = MachineMeta {
            phys_mem_start: 0,
            phys_mem_size: 0,
            harts: pairs_new(),
            virtio: pairs_new(),
        };
        proof {
            assert(r.harts() =~= Seq::<Hart>::empty());
            assert(r.devices() =~= Seq::<Device>::empty());
        }
        r
    }

    /// Number of cores.
    pub fn hart_count(&self) -> (n: usize)
        ensures
            n == self.harts().len(),
            n <= MAX_ENTRIES,
    {
        pairs_len(&self.harts)
    }

    /// The core at position `i`.
    pub fn hart(&self, i: usize) -> (r: Hart)
        requires
            i < self.harts().len(),
        ensures
            r == self.harts()[i as int],
    {
        let pair = pairs_get(&self.harts, i);
        Hart { hartid: pair.0, plic_context: pair.1 }
    }

    /// Number of device windows.
    pub fn device_count(&self) -> (n: usize)
        ensures
            n == self.devices().len(),
            n <= MAX_ENTRIES,
    {
        pairs_len(&self.virtio)
    }

    /// The device window at position `i`.
    pub fn device(&self, i: usize) -> (r: Device)
        requires
            i < self.devices().len(),
        ensures
            r == self.devices()[i as int],
    {
        let pair = pairs_get(&self.virtio, i);
        Device { base_address: pair.0, size: pair.1 }
    }
}

/// Builds the machine description from what a device tree holds: the memory regions, the first
/// id of each core, and for each device node its first register window, if it has one.
///
/// Memory is the last region. Every core gets the interrupt context 0. A node without a window
/// is passed over. Returns `None` exactly when [`parse_accepts`] does not hold.
pub fn parse(regions: &[RawRegion], cpus: &[usize], nodes: &[Option<RawRegion>]) -> (r: Option<
    MachineMeta,
>)
    ensures
        r is Some <==> parse_accepts(regions@, cpus@, nodes@),
        r is Some ==> {
            let meta = r.unwrap();
            &&& meta.wf()
            &&& (meta.spec_phys_mem_start(), meta.spec_phys_mem_size()) == memory_of(regions@)
            &&& meta.harts() == Seq::new(
                cpus@.len(),
                |i: int| Hart { hartid: cpus@[i], plic_context: 0 },
            )
            &&& meta.devices() == Seq::new(
                present_windows(nodes@).len(),
                |i: int|
                    Device {
                        base_address: present_windows(nodes@)[i].0,
                        size: present_windows(nodes@)[i].1.unwrap(),
                    },
            )
        },
{
    let mut meta = MachineMeta::new();
    let mut i: usize = 0;
    while i < regions.len()
        invariant
            i <= regions.len(),
            forall|j: int| 0 <= j < i ==> (#[trigger] regions@[j]).1 is Some,
            (meta.phys_mem_start, meta.phys_mem_size) == memory_of(regions@.take(i as int)),
            pairs_of(meta.harts) == Seq::<(usize, usize)>::empty(),
            pairs_of(meta.virtio) == Seq::<(usize, usize)>::empty(),
        decreases regions.len() - i,
    {
        let region = regions[i];
        match region.1 {
            Some(size) => {
                meta.phys_mem_start = region.0;
                meta.phys_mem_size = size;
            },
            None => {
                return None;
            },
        }
        proof {
            assert(regions@.take(i + 1).last() == regions@[i as int]);
        }
        i = i + 1;
    }
    proof {
        assert(regions@.take(regions.len() as int) =~= regions@);
    }
    if meta.phys_mem_size > usize::MAX - meta.phys_mem_start {
        return None;
    }
    if cpus.len() > MAX_ENTRIES {
        return None;
    }
    let mut c: usize = 0;
    while c < cpus.len()
        invariant
            c <= cpus.len() <= MAX_ENTRIES,
            pairs_of(meta.harts).len() == c,
            forall|j: int| 0 <= j < c ==> (#[trigger] pairs_of(meta.harts)[j]) == (cpus@[j], 0usize),
            (meta.phys_mem_start, meta.phys_mem_size) == memory_of(regions@),
            pairs_of(meta.virtio) == Seq::<(usize, usize)>::empty(),
        decreases cpus.len() - c,
    {
        pairs_push(&mut meta.harts, (cpus[c], 0));
        c = c + 1;
    }
    let mut n: usize = 0;
    while n < nodes.len()
        invariant
            n <= nodes.len(),
            forall|j: int|
                0 <= j < n && (#[trigger] nodes@[j]) is Some ==> {
                    &&& nodes@[j].unwrap().1 is Some
                    &&& nodes@[j].unwrap().0 + nodes@[j].unwrap().1.unwrap() <= usize::MAX
                },
            pairs_of(meta.virtio).len() == present_windows(nodes@.take(n as int)).len(),
            pairs_of(meta.virtio).len() <= MAX_ENTRIES,
            forall|j: int|
                0 <= j < pairs_of(meta.virtio).len() ==> holds_window(
                    #[trigger] pairs_of(meta.virtio)[j],
                    present_windows(nodes@.take(n as int))[j],
                ),
            pairs_of(meta.harts).len() == cpus.len(),
            forall|j: int|
                0 <= j < cpus.len() ==> (#[trigger] pairs_of(meta.harts)[j]) == (cpus@[j], 0usize),
            (meta.phys_mem_start, meta.phys_mem_size) == memory_of(regions@),
            meta.phys_mem_start + meta.phys_mem_size <= usize::MAX,
            cpus.len() <= MAX_ENTRIES,
        decreases nodes.len() - n,
    {
        let ghost held = pairs_of(meta.virtio);
        let ghost before = present_windows(nodes@.take(n as int));
        let ghost after = present_windows(nodes@.take(n + 1));
        proof {
            assert(nodes@.take(n + 1).drop_last() =~= nodes@.take(n as int));
            assert(nodes@.take(n + 1).last() == nodes@[n as int]);
            lemma_present_windows_prefix(nodes@, n + 1);
            assert(after == match nodes@[n as int] {
                Some(window) => before.push(window),
                None => before,
            });
        }
        if let Some(window) = nodes[n] {
            match window.1 {
                Some(size) => {
                    if size > usize::MAX - window.0 {
                        return None;
                    }
                    if pairs_len(&meta.virtio) >= MAX_ENTRIES {
                        return None;
                    }
                    pairs_push(&mut meta.virtio, (window.0, size));
                },
                None => {
                    return None;
                },
            }
        }
        proof {
            let now = pairs_of(meta.virtio);
            assert(now.len() == after.len());
            assert forall|j: int| 0 <= j < now.len() implies holds_window(
                #[trigger] now[j],
                after[j],
            ) by {
                if j < held.len() {
                    assert(holds_window(held[j], before[j]));
                }
            }
        }
        n = n + 1;
    }
    proof {
        assert(nodes@.take(nodes.len() as int) =~= nodes@);
        assert(meta.harts() =~= Seq::new(
            cpus@.len(),
            |i: int| Hart { hartid: cpus@[i], plic_context: 0 },
        ));
        assert(meta.devices() =~= Seq::new(
            present_windows(nodes@).len(),
            |i: int|
                Device {
                    base_address: present_windows(nodes@)[i].0,
                    size: present_windows(nodes@)[i].1.unwrap(),
                },
        ));
        assert forall|i: int| 0 <= i < meta.devices().len() implies (
        #[trigger] meta.devices()[i]).base_address + meta.devices()[i].size <= usize::MAX by {
            assert(pairs_of(meta.virtio)[i] == (
                present_windows(nodes@)[i].0,
                present_windows(nodes@)[i].1.unwrap(),
            ));
        }
    }
    Some(meta)
}

} // verus!
