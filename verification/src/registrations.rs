//! The registered descriptors, and the subscriptions that they call for.
use vstd::prelude::*;
use vstd::std_specs::iter::IteratorSpec;
use std::collections::HashMap;
use crate::error::{Error, ErrorKind};
use crate::readiness::Readiness;
use crate::token::{Interest, Token};
use crate::wasi::{descriptor_of, Event, Fd, Subscription, SubscriptionU};

verus! {

broadcast use vstd::std_specs::hash::group_hash_axioms;

/// What is known of a registered descriptor: the name that its events are to carry, what
/// is to be heard of it, and the cell that holds its readiness.
#[derive(Clone, Copy, Debug, PartialEq, Eq, Structural)]
pub struct Registration {
    pub token: Token,
    pub interests: Interest,
    pub cell: usize,
}

/// The registrations of a selector, at most one for each descriptor.
pub struct Registrations {
    map: HashMap<u32, Registration>,
}

impl View for Registrations {
    type V = Map<u32, Registration>;

    closed spec fn view(&self) -> Map<u32, Registration> {
        self.map@
    }
}

/// Whether every registration's cell is one of the cells.
pub open spec fn live(regs: Map<u32, Registration>, cells: Seq<Readiness>) -> bool {
    forall|fd: u32| #[trigger] regs.contains_key(fd) ==> regs[fd].cell < cells.len()
}

/// Whether the event is on a registered descriptor whose readiness lies in `cell`.
pub open spec fn uses(regs: Map<u32, Registration>, event: Event, cell: usize) -> bool {
    regs.contains_key(descriptor_of(event.userdata)) && regs[descriptor_of(event.userdata)].cell
        == cell
}

/// Whether the registration calls for reading at present.
pub open spec fn wants_read(reg: Registration, cells: Seq<Readiness>) -> bool {
    reg.interests.readable && cells[reg.cell as int].read
}

/// Whether the registration calls for writing at present.
pub open spec fn wants_write(reg: Registration, cells: Seq<Readiness>) -> bool {
    reg.interests.writable && cells[reg.cell as int].write > 0
}

/// The subscription to the data of `fd`.
pub open spec fn read_subscription(fd: u32) -> Subscription {
    Subscription { userdata: fd as u64, u: SubscriptionU::FdRead(fd) }
}

/// The subscription to the room for data of `fd`.
pub open spec fn write_subscription(fd: u32) -> Subscription {
    Subscription { userdata: fd as u64, u: SubscriptionU::FdWrite(fd) }
}

/// The subscriptions that one registration calls for: to reading, then to writing.
pub open spec fn wanted(fd: u32, reg: Registration, cells: Seq<Readiness>) -> Seq<Subscription> {
    let read = if wants_read(reg, cells) {
        seq![read_subscription(fd)]
    } else {
        seq![]
    };
    let write = if wants_write(reg, cells) {
        seq![write_subscription(fd)]
    } else {
        seq![]
    };
    read + write
}

/// The subscriptions that the descriptors in `order` call for, in that order.
pub open spec fn wanted_in(
    regs: Map<u32, Registration>,
    order: Seq<u32>,
    cells: Seq<Readiness>,
) -> Seq<Subscription>
    decreases order.len(),
{
    if order.len() == 0 {
        seq![]
    } else {
        wanted_in(regs, order.drop_last(), cells) + wanted(order.last(), regs[order.last()], cells)
    }
}

/// Whether `order` is an order in which the registrations can be walked: it holds each
/// registered descriptor once, and no other.
pub open spec fn walks(order: Seq<u32>, regs: Map<u32, Registration>) -> bool {
    &&& order.no_duplicates()
    &&& forall|fd: u32| #[trigger] order.contains(fd) <==> regs.contains_key(fd)
}

impl Registrations {
    /// No registrations.
    pub fn new() -> (r: Registrations)
        ensures
            r@ == Map::<u32, Registration>::empty(),
    {
        Registrations { map: HashMap::new() }
    }

    /// The registration of `fd`.
    pub fn get(&self, fd: Fd) -> (r: Option<Registration>)
        ensures
            r == (if self@.contains_key(fd) { Some(self@[fd]) } else { None }),
    {
        match self.map.get(&fd) {
            Some(reg) => Some(*reg),
            None => None,
        }
    }

    /// Registers `fd`; an earlier registration of it is replaced.
    pub fn insert(&mut self, fd: Fd, reg: Registration)
        ensures
            final(self)@ == old(self)@.insert(fd, reg),
    {
        self.map.insert(fd, reg);
    }

    /// Takes the registration of `fd` out; it is an error if there is none.
    pub fn remove(&mut self, fd: Fd) -> (r: Result<(), Error>)
        ensures
            final(self)@ == old(self)@.remove(fd),
            r == (if old(self)@.contains_key(fd) {
                Ok::<(), Error>(())
            } else {
                Err::<(), Error>(Error::Simple(ErrorKind::NotFound))
            }),
    {
        match self.map.remove(&fd) {
            Some(_) => Ok(()),
            None => {
                assert(self@ =~= old(self)@.remove(fd));
                Err(Error::Simple(ErrorKind::NotFound))
            },
        }
    }

    /// Takes the registrations of all of `fds` out, where there are any.
    pub fn remove_all(&mut self, fds: &Vec<Fd>)
        ensures
            final(self)@ == old(self)@.filter_keys(|fd: u32| !fds@.contains(fd)),
    {
        let ghost before = self@;
        for k in 0..fds.len()
            invariant
                self@ == before.filter_keys(|fd: u32| !fds@.take(k as int).contains(fd)),
        {
            self.map.remove(&fds[k]);
            assert(fds@.take(k + 1) =~= fds@.take(k as int).push(fds@[k as int]));
            assert forall|fd: u32| fds@.take(k + 1).contains(fd) <==> (fds@.take(k as int).contains(
                fd,
            ) || fd == fds@[k as int]) by {
                if fds@.take(k as int).contains(fd) {
                    let j = fds@.take(k as int).index_of(fd);
                    assert(fds@.take(k + 1)[j] == fd);
                }
                assert(fds@.take(k + 1)[k as int] == fds@[k as int]);
            }
            assert(self@ =~= before.filter_keys(|fd: u32| !fds@.take(k + 1).contains(fd)));
        }
        assert(fds@.take(fds@.len() as int) =~= fds@);
    }

    /// The registered descriptors, in the order in which the map happens to be walked.
    pub fn descriptors(&self) -> (order: Vec<Fd>)
        ensures
            walks(order@, self@),
    {
        let mut order: Vec<Fd> = Vec::new();
        let keys = self.map.keys();
        let ghost all = keys.remaining().unref();
        for fd in it: keys
            invariant
                it.seq().unref() == all,
                order@ == all.take(it.index() as int),
        {
            order.push(*fd);
        }
        assert(order@ =~= all);
        assert forall|fd: u32| #[trigger] order@.contains(fd) <==> self@.contains_key(fd) by {
            assert(all.to_set().contains(fd) <==> all.contains(fd));
        }
        order
    }

    /// Whether every registration's cell is one of the cells.
    pub fn is_live(&self, cells: &Vec<Readiness>) -> (b: bool)
        ensures
            b == live(self@, cells@),
    {
        let order = self.descriptors();
        for k in 0..order.len()
            invariant
                walks(order@, self@),
                forall|i: int|
                    0 <= i < k ==> self@[#[trigger] order@[i]].cell < cells@.len(),
        {
            let fd: u32 = order[k];
            assert(order@.contains(fd));
            if let Some(reg) = self.get(fd) {
                if reg.cell >= cells.len() {
                    return false;
                }
            }
        }
        assert forall|fd: u32| #[trigger] self@.contains_key(fd) implies self@[fd].cell
            < cells@.len() by {
            assert(order@.contains(fd));
            assert(order@[order@.index_of(fd)] == fd);
        }
        true
    }

    /// The subscriptions that the descriptors in `order` call for, in that order.
    pub fn subscriptions_in(&self, order: &Vec<Fd>, cells: &Vec<Readiness>) -> (subs: Vec<
        Subscription,
    >)
        requires
            forall|i: int| 0 <= i < order@.len() ==> self@.contains_key(#[trigger] order@[i]),
            live(self@, cells@),
        ensures
            subs@ == wanted_in(self@, order@, cells@),
    {
        let mut subs: Vec<Subscription> = Vec::new();
        for k in 0..order.len()
            invariant
                forall|i: int| 0 <= i < order@.len() ==> self@.contains_key(#[trigger] order@[i]),
                live(self@, cells@),
                subs@ == wanted_in(self@, order@.take(k as int), cells@),
        {
            let fd: u32 = order[k];
            assert(order@.take(k + 1).drop_last() =~= order@.take(k as int));
            if let Some(reg) = self.get(fd) {
                if reg.interests.is_readable() && cells[reg.cell].read {
                    subs.push(Subscription { userdata: fd as u64, u: SubscriptionU::FdRead(fd) });
                }
                if reg.interests.is_writable() && cells[reg.cell].write > 0 {
                    subs.push(Subscription { userdata: fd as u64, u: SubscriptionU::FdWrite(fd) });
                }
            }
            assert(subs@ =~= wanted_in(self@, order@.take(k as int), cells@) + wanted(
                fd,
                self@[fd],
                cells@,
            ));
        }
        assert(order@.take(order@.len() as int) =~= order@);
        subs
    }

    /// The subscriptions that the registrations call for, in the order in which the map
    /// happens to be walked.
    pub fn subscriptions(&self, cells: &Vec<Readiness>) -> (subs: Vec<Subscription>)
        requires
            live(self@, cells@),
        ensures
            exists|order: Seq<u32>|
                walks(order, self@) && subs@ == #[trigger] wanted_in(self@, order, cells@),
    {
        let order = self.descriptors();
        assert forall|i: int| 0 <= i < order@.len() implies self@.contains_key(
            #[trigger] order@[i],
        ) by {
            assert(order@.contains(order@[i]));
        }
        self.subscriptions_in(&order, cells)
    }
}

/// What holds of the subscriptions of the descriptors in `order`, where none is there twice.
proof fn lemma_wanted_in(regs: Map<u32, Registration>, order: Seq<u32>, cells: Seq<Readiness>)
    requires
        order.no_duplicates(),
    ensures
        forall|s: Subscription| #[trigger]
            wanted_in(regs, order, cells).contains(s) <==> called_for(regs, order, cells, s),
        wanted_in(regs, order, cells).no_duplicates(),
        wanted_in(regs, order, cells).len() <= 2 * order.len(),
    decreases order.len(),
{
    let all = wanted_in(regs, order, cells);
    if order.len() > 0 {
        let rest = order.drop_last();
        let fd = order.last();
        let reg = regs[fd];
        let before = wanted_in(regs, rest, cells);
        let added = wanted(fd, reg, cells);
        assert(rest.no_duplicates());
        lemma_wanted_in(regs, rest, cells);
        assert(!rest.contains(fd));
        assert forall|g: u32| order.contains(g) <==> (rest.contains(g) || g == fd) by {
            if order.contains(g) {
                let i = order.index_of(g);
                if i < rest.len() {
                    assert(rest[i] == g);
                }
            }
            if rest.contains(g) {
                assert(order[rest.index_of(g)] == g);
            }
            assert(order[order.len() - 1] == fd);
        }
        assert forall|s: Subscription| added.contains(s) <==> ((s == read_subscription(fd)
            && wants_read(reg, cells)) || (s == write_subscription(fd) && wants_write(
            reg,
            cells,
        ))) by {
            if wants_read(reg, cells) {
                assert(added[0] == read_subscription(fd));
                if wants_write(reg, cells) {
                    assert(added[1] == write_subscription(fd));
                }
            } else if wants_write(reg, cells) {
                assert(added[0] == write_subscription(fd));
            }
        }
        assert forall|s: Subscription| all.contains(s) <==> (before.contains(s) || added.contains(
            s,
        )) by {
            if before.contains(s) {
                assert(all[before.index_of(s)] == s);
            }
            if added.contains(s) {
                assert(all[before.len() + added.index_of(s)] == s);
            }
            if all.contains(s) {
                let i = all.index_of(s);
                if i < before.len() {
                    assert(before[i] == s);
                } else {
                    assert(added[i - before.len()] == s);
                }
            }
        }
        assert forall|s: Subscription| #[trigger] all.contains(s) <==> called_for(
            regs,
            order,
            cells,
            s,
        ) by {}
        assert forall|i: int, j: int|
            0 <= i < all.len() && 0 <= j < all.len() && i != j implies all[i] != all[j] by {
            if i < before.len() && j < before.len() {
                assert(before[i] != before[j]);
            } else if i < before.len() {
                assert(before.contains(before[i]));
                assert(added.contains(added[j - before.len()]));
            } else if j < before.len() {
                assert(before.contains(before[j]));
                assert(added.contains(added[i - before.len()]));
            }
        }
    }
}

/// Whether a descriptor in `order` calls for the subscription `s`.
pub open spec fn called_for(
    regs: Map<u32, Registration>,
    order: Seq<u32>,
    cells: Seq<Readiness>,
    s: Subscription,
) -> bool {
    match s.u {
        SubscriptionU::FdRead(fd) => order.contains(fd) && s == read_subscription(fd)
            && wants_read(regs[fd], cells),
        SubscriptionU::FdWrite(fd) => order.contains(fd) && s == write_subscription(fd)
            && wants_write(regs[fd], cells),
        SubscriptionU::Clock(_) => false,
    }
}

/// In whatever order the registrations are walked, the same subscriptions come out: a
/// descriptor's read subscription exactly if it is registered for reading and its
/// readiness to read is not spent, likewise its write subscription, each once and nothing
/// else; at most two for each registration.
pub proof fn law_subscriptions(
    regs: Map<u32, Registration>,
    order: Seq<u32>,
    cells: Seq<Readiness>,
)
    requires
        walks(order, regs),
    ensures
        forall|fd: u32|
            wanted_in(regs, order, cells).contains(#[trigger] read_subscription(fd)) <==> (
            regs.contains_key(fd) && wants_read(regs[fd], cells)),
        forall|fd: u32|
            wanted_in(regs, order, cells).contains(#[trigger] write_subscription(fd)) <==> (
            regs.contains_key(fd) && wants_write(regs[fd], cells)),
        forall|s: Subscription| #[trigger]
            wanted_in(regs, order, cells).contains(s) ==> exists|fd: u32|
                #![trigger regs.contains_key(fd)]
                regs.contains_key(fd) && (s == read_subscription(fd) || s == write_subscription(
                    fd,
                )),
        wanted_in(regs, order, cells).no_duplicates(),
        wanted_in(regs, order, cells).len() <= 2 * regs.len(),
{
    lemma_wanted_in(regs, order, cells);
    assert(order.to_set() =~= regs.dom());
    order.unique_seq_to_set();
    assert forall|s: Subscription| #[trigger] wanted_in(regs, order, cells).contains(
        s,
    ) implies exists|fd: u32|
        #![trigger regs.contains_key(fd)]
        regs.contains_key(fd) && (s == read_subscription(fd) || s == write_subscription(fd)) by {
        assert(called_for(regs, order, cells, s));
        match s.u {
            SubscriptionU::FdRead(fd) => {
                assert(regs.contains_key(fd));
            },
            SubscriptionU::FdWrite(fd) => {
                assert(regs.contains_key(fd));
            },
            SubscriptionU::Clock(_) => {},
        }
    }
}

/// What was registered is found again under its descriptor, the other registrations stay,
/// and taking a fresh registration out leaves what there was before.
pub proof fn law_insert_then_remove(regs: Map<u32, Registration>, fd: u32, reg: Registration)
    ensures
        regs.insert(fd, reg)[fd] == reg,
        forall|g: u32|
            g != fd && #[trigger] regs.contains_key(g) ==> regs.insert(fd, reg).contains_key(g)
                && regs.insert(fd, reg)[g] == regs[g],
        !regs.insert(fd, reg).remove(fd).contains_key(fd),
        !regs.contains_key(fd) ==> regs.insert(fd, reg).remove(fd) == regs,
{
    if !regs.contains_key(fd) {
        assert(regs.insert(fd, reg).remove(fd) =~= regs);
    }
}

/// A descriptor whose registration was taken out is not asked for any more.
pub proof fn law_removed_is_not_polled(
    regs: Map<u32, Registration>,
    fd: u32,
    order: Seq<u32>,
    cells: Seq<Readiness>,
)
    requires
        walks(order, regs.remove(fd)),
    ensures
        !wanted_in(regs.remove(fd), order, cells).contains(read_subscription(fd)),
        !wanted_in(regs.remove(fd), order, cells).contains(write_subscription(fd)),
{
    law_subscriptions(regs.remove(fd), order, cells);
}

/// The cells of the registrations stay among the cells: when a descriptor is registered with
/// one of them or its registration is taken out, when a cell is added, and when the
/// readiness in the cells changes.
pub proof fn law_live_is_kept(
    regs: Map<u32, Registration>,
    cells: Seq<Readiness>,
    fd: u32,
    reg: Registration,
    fewer: Map<u32, Registration>,
    changed: Seq<Readiness>,
)
    requires
        live(regs, cells),
        reg.cell < cells.len(),
        fewer.submap_of(regs),
        changed.len() >= cells.len(),
    ensures
        live(regs.insert(fd, reg), cells),
        live(regs.remove(fd), cells),
        live(fewer, cells),
        live(regs, changed),
{
    assert forall|g: u32| #[trigger] fewer.contains_key(g) implies fewer[g].cell < cells.len() by {
        assert(fewer.submap_of(regs));
        assert(regs.dom().contains(g));
    }
}

/// A subscription to the data of a descriptor is made exactly if the descriptor is registered, for
/// reading, and may still be polled for it, whatever is left of its readiness to write.
pub proof fn law_asked_for_reading(
    regs: Map<u32, Registration>,
    order: Seq<u32>,
    cells: Seq<Readiness>,
    fd: u32,
)
    requires
        walks(order, regs),
    ensures
        wanted_in(regs, order, cells).contains(
            Subscription { userdata: fd as u64, u: SubscriptionU::FdRead(fd) },
        ) <==> regs.contains_key(fd) && regs[fd].interests.readable
            && cells[regs[fd].cell as int].read,
{
    lemma_wanted_in(regs, order, cells);
    let read = Subscription { userdata: fd as u64, u: SubscriptionU::FdRead(fd) };
    assert(wanted_in(regs, order, cells).contains(read) <==> called_for(regs, order, cells, read));
}

/// A subscription to the room for data of a descriptor is made exactly if the descriptor is
/// registered, for writing, and has write credit left, whatever its readiness to read.
pub proof fn law_asked_for_writing(
    regs: Map<u32, Registration>,
    order: Seq<u32>,
    cells: Seq<Readiness>,
    fd: u32,
)
    requires
        walks(order, regs),
    ensures
        wanted_in(regs, order, cells).contains(
            Subscription { userdata: fd as u64, u: SubscriptionU::FdWrite(fd) },
        ) <==> regs.contains_key(fd) && regs[fd].interests.writable
            && cells[regs[fd].cell as int].write > 0,
{
    lemma_wanted_in(regs, order, cells);
    let write = Subscription { userdata: fd as u64, u: SubscriptionU::FdWrite(fd) };
    assert(wanted_in(regs, order, cells).contains(write) <==> called_for(
        regs,
        order,
        cells,
        write,
    ));
}

/// The list of the registrations holds each subscription once, and only such on registered
/// descriptors, each with its descriptor as userdata.
pub proof fn law_asked_for_nothing_else(
    regs: Map<u32, Registration>,
    order: Seq<u32>,
    cells: Seq<Readiness>,
    i: int,
    j: int,
)
    requires
        walks(order, regs),
        0 <= i < j < wanted_in(regs, order, cells).len() || 0 <= i == j < wanted_in(
            regs,
            order,
            cells,
        ).len(),
    ensures
        i < j ==> wanted_in(regs, order, cells)[i] != wanted_in(regs, order, cells)[j],
        match wanted_in(regs, order, cells)[i].u {
            SubscriptionU::FdRead(fd) => wanted_in(regs, order, cells)[i].userdata == fd
                && regs.contains_key(fd),
            SubscriptionU::FdWrite(fd) => wanted_in(regs, order, cells)[i].userdata == fd
                && regs.contains_key(fd),
            SubscriptionU::Clock(_) => false,
        },
{
    let list = wanted_in(regs, order, cells);
    lemma_wanted_in(regs, order, cells);
    assert(list.contains(list[i]));
    assert(called_for(regs, order, cells, list[i]));
}

/// Where a descriptor is asked for both, its two subscriptions stand side by side, that to its data
/// first.
pub proof fn law_reading_is_asked_for_first(
    regs: Map<u32, Registration>,
    order: Seq<u32>,
    cells: Seq<Readiness>,
    fd: u32,
    i: int,
)
    requires
        0 <= i < wanted_in(regs, order, cells).len(),
        wanted_in(regs, order, cells)[i].u == SubscriptionU::FdWrite(fd),
        regs[fd].interests.readable,
        cells[regs[fd].cell as int].read,
    ensures
        i > 0,
        wanted_in(regs, order, cells)[i - 1].u == SubscriptionU::FdRead(fd),
        wanted_in(regs, order, cells)[i - 1].userdata == fd,
{
    lemma_read_then_write(regs, order, cells);
}

proof fn lemma_read_then_write(regs: Map<u32, Registration>, order: Seq<u32>, cells: Seq<Readiness>)
    ensures
        forall|i: int|
            0 <= i < wanted_in(regs, order, cells).len() ==> ((#[trigger] wanted_in(
                regs,
                order,
                cells,
            )[i]).u matches SubscriptionU::FdWrite(fd) ==> (wants_read(regs[fd], cells) ==> i > 0
                && wanted_in(regs, order, cells)[i - 1] == read_subscription(fd))),
    decreases order.len(),
{
    if order.len() > 0 {
        let rest = order.drop_last();
        lemma_read_then_write(regs, rest, cells);
        let before = wanted_in(regs, rest, cells);
        let added = wanted(order.last(), regs[order.last()], cells);
        let list = wanted_in(regs, order, cells);
        assert(list == before + added);
        assert forall|i: int| 0 <= i < list.len() implies ((#[trigger] list[i]).u matches
            SubscriptionU::FdWrite(fd) ==> (wants_read(regs[fd], cells) ==> i > 0 && list[i - 1]
            == read_subscription(fd))) by {
            if i < before.len() {
                assert(list[i] == before[i]);
                if i > 0 {
                    assert(list[i - 1] == before[i - 1]);
                }
            } else {
                assert(list[i] == added[i - before.len()]);
                if i > before.len() {
                    assert(list[i - 1] == added[i - 1 - before.len()]);
                }
            }
        }
    }
}

/// Cells suit the registrations exactly if each registration's cell is one of them.
pub proof fn law_live_asks_for_the_cells_alone(
    regs: Map<u32, Registration>,
    cells: Seq<Readiness>,
)
    ensures
        (forall|fd: u32| #[trigger] regs.contains_key(fd) ==> regs[fd].cell < cells.len()) ==> live(
            regs,
            cells,
        ),
        (exists|fd: u32| #[trigger] regs.contains_key(fd) && regs[fd].cell >= cells.len())
            ==> !live(regs, cells),
{
}

} // verus!
