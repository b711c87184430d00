//! The slaves of a group are kept in a `heapless::Vec`: a vector of fixed capacity that never
//! allocates. What is said of it here is taken on trust from the `heapless` crate.

use crate::slave::Slave;
use vstd::prelude::*;

verus! {

/// The number of slaves a group has room for.
pub const MAX_SLAVES: usize = 16;

/// `heapless::Vec`, named so that it can stand in fields and signatures. Nothing is known of
/// what such a vector holds but what the functions below say.
#[verifier::external_type_specification]
#[verifier::external_body]
#[verifier::reject_recursive_types(T)]
pub struct ExHeaplessVec<T, const N: usize>(heapless::Vec<T, N>);

/// The slaves that a list holds, first to last.
pub uninterp spec fn slave_items(list: heapless::Vec<Slave, MAX_SLAVES>) -> Seq<Slave>;

/// `heapless::Vec::new`: the list it makes is empty.
#[verifier::external_body]
pub(crate) fn slave_list_new() -> (list: heapless::Vec<Slave, MAX_SLAVES>)
    ensures
        slave_items(list) == Seq::<Slave>::empty(),
{
    heapless::Vec::new()
}

/// `heapless::Vec::push`: while the list holds fewer slaves than its capacity, the slave is put
/// behind the others. A full list is left as it is and the slave is handed back.
#[verifier::external_body]
pub(crate) fn slave_list_push(list: &mut heapless::Vec<Slave, MAX_SLAVES>, slave: Slave) -> (r:
    Result<(), Slave>)
    ensures
        r.is_ok() == (slave_items(*old(list)).len() < MAX_SLAVES),
        r.is_ok() ==> slave_items(*final(list)) == slave_items(*old(list)).push(slave),
        r.is_err() ==> r.unwrap_err() == slave && slave_items(*final(list)) == slave_items(
            *old(list),
        ),
{
    list.push(slave)
}

/// `heapless::Vec::as_slice`: the slaves of the list, as a slice.
#[verifier::external_body]
pub(crate) fn slave_list_as_slice(list: &heapless::Vec<Slave, MAX_SLAVES>) -> (slaves: &[Slave])
    ensures
        slaves@ == slave_items(*list),
{
    list.as_slice()
}

/// `AsMut<[T]>::as_mut` of `heapless::Vec`: the slaves of the list, as a slice through which
/// they can be changed. When the borrow ends, the list holds what the slice holds then.
#[verifier::external_body]
pub(crate) fn slave_list_as_mut_slice(list: &mut heapless::Vec<Slave, MAX_SLAVES>) -> (slaves:
    &mut [Slave])
    ensures
        slaves@ == slave_items(*old(list)),
        slave_items(*final(list)) == final(slaves)@,
{
    list.as_mut()
}

} // verus!
