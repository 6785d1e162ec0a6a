use vstd::prelude::*;

verus! {

/// One allocated data slot: its identifier and how many allocations hold it.
/// A slot whose count has dropped to zero is parked at minus one until it is
/// allocated again.
pub struct Slot {
    pub id: i32,
    pub ref_count: i64,
}

/// Whether some slot in the registry carries identifier `k`.
pub open spec fn slot_used(slots: Seq<Slot>, k: int) -> bool {
    exists|i: int| 0 <= i < slots.len() && (#[trigger] slots[i]).id == k
}

/// The smallest nonnegative identifier no slot in the registry uses, or
/// nothing when every nonnegative identifier is taken.
pub fn find_new_slot_id(slots: &Vec<Slot>) -> (r: Option<i32>)
    ensures
        match r {
            Some(id) => 0 <= id && !slot_used(slots@, id as int) && (forall|k: int|
                0 <= k < id ==> #[trigger] slot_used(slots@, k)),
            None => forall|k: int| 0 <= k < i32::MAX ==> #[trigger] slot_used(slots@, k),
        },
{
    let mut id: i32 = 0;
    while id < i32::MAX
        invariant
            0 <= id <= i32::MAX,
            forall|k: int| 0 <= k < id ==> #[trigger] slot_used(slots@, k),
        decreases i32::MAX - id,
    {
        let mut found = false;
        let mut i: usize = 0;
        while i < slots.len()
            invariant
                i <= slots@.len(),
                found == (exists|j: int| 0 <= j < i && (#[trigger] slots@[j]).id == id),
            decreases slots@.len() - i,
        {
            if slots[i].id == id {
                found = true;
            }
            i = i + 1;
        }
        if !found {
            return Some(id);
        }
        id = id + 1;
    }
    None
}

/// Records a freshly allocated slot with one holder.
pub fn insert_new_slot(id: i32, slots: &mut Vec<Slot>)
    ensures
        final(slots)@.len() == old(slots)@.len() + 1,
        forall|i: int| 0 <= i < old(slots)@.len() ==> final(slots)@[i] == old(slots)@[i],
        final(slots)@.last().id == id,
        final(slots)@.last().ref_count == 1,
{
    slots.push(Slot { id, ref_count: 1 });
}

/// Adds one holder to every slot carrying `id`.
#[verifier::loop_isolation(false)]
pub fn ref_slot(id: i32, slots: &mut Vec<Slot>)
    requires
        forall|i: int| 0 <= i < old(slots)@.len() ==> (#[trigger] old(slots)@[i]).ref_count
            < i64::MAX,
    ensures
        final(slots)@.len() == old(slots)@.len(),
        forall|i: int|
            0 <= i < old(slots)@.len() ==> #[trigger] final(slots)@[i] == (if old(slots)@[i].id
                == id {
                Slot { ref_count: (old(slots)@[i].ref_count + 1) as i64, ..old(slots)@[i] }
            } else {
                old(slots)@[i]
            }),
{
    let mut i: usize = 0;
    while i < slots.len()
        invariant
            i <= old(slots)@.len(),
            slots@.len() == old(slots)@.len(),
            forall|j: int|
                0 <= j < i ==> #[trigger] slots@[j] == (if old(slots)@[j].id == id {
                    Slot { ref_count: (old(slots)@[j].ref_count + 1) as i64, ..old(slots)@[j] }
                } else {
                    old(slots)@[j]
                }),
            forall|j: int| i <= j < old(slots)@.len() ==> slots@[j] == old(slots)@[j],
        decreases old(slots)@.len() - i,
    {
        if slots[i].id == id {
            let s = &mut slots[i];
            s.ref_count = s.ref_count + 1;
        }
        i = i + 1;
    }
}

/// Drops one holder from every slot carrying `id`; a count that reaches zero
/// parks the slot at minus one.
#[verifier::loop_isolation(false)]
pub fn unref_slot(id: i32, slots: &mut Vec<Slot>)
    requires
        forall|i: int| 0 <= i < old(slots)@.len() ==> (#[trigger] old(slots)@[i]).ref_count
            > i64::MIN,
    ensures
        final(slots)@.len() == old(slots)@.len(),
        forall|i: int|
            0 <= i < old(slots)@.len() ==> #[trigger] final(slots)@[i] == (if old(slots)@[i].id
                == id {
                Slot {
                    ref_count: if old(slots)@[i].ref_count - 1 <= 0 {
                        -1i64
                    } else {
                        (old(slots)@[i].ref_count - 1) as i64
                    },
                    ..old(slots)@[i]
                }
            } else {
                old(slots)@[i]
            }),
{
    let mut i: usize = 0;
    while i < slots.len()
        invariant
            i <= old(slots)@.len(),
            slots@.len() == old(slots)@.len(),
            forall|j: int|
                0 <= j < i ==> #[trigger] slots@[j] == (if old(slots)@[j].id == id {
                    Slot {
                        ref_count: if old(slots)@[j].ref_count - 1 <= 0 {
                            -1i64
                        } else {
                            (old(slots)@[j].ref_count - 1) as i64
                        },
                        ..old(slots)@[j]
                    }
                } else {
                    old(slots)@[j]
                }),
            forall|j: int| i <= j < old(slots)@.len() ==> slots@[j] == old(slots)@[j],
        decreases old(slots)@.len() - i,
    {
        if slots[i].id == id {
            let s = &mut slots[i];
            s.ref_count = s.ref_count - 1;
            if s.ref_count <= 0 {
                s.ref_count = -1;
            }
        }
        i = i + 1;
    }
}

} // verus!
