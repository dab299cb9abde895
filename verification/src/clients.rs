//! The roster of admitted clients.  It is kept in a `slab::Slab`, which hands
//! every admitted client a stable small integer handle, reused only after
//! deletion.  The slab is opaque to the verifier: `slab_view` names its
//! contents, and each operation the room needs is a trusted wrapper whose
//! contract states what the slab's source shows.

use vstd::prelude::*;

verus! {

/// An admitted connection: its datagram keys and its role flags.
/// `is_spectator` is kept for forward compatibility and never set here.
#[derive(Debug, Clone, PartialEq)]
pub struct Client {
    pub read_key: Vec<u8>,
    pub write_key: Vec<u8>,
    pub is_host: bool,
    pub is_spectator: bool,
}

/// Mathematical image of [`Client`].
pub struct ClientV {
    pub read_key: Seq<u8>,
    pub write_key: Seq<u8>,
    pub is_host: bool,
    pub is_spectator: bool,
}

impl DeepView for Client {
    type V = ClientV;

    open spec fn deep_view(&self) -> ClientV {
        ClientV {
            read_key: self.read_key.deep_view(),
            write_key: self.write_key.deep_view(),
            is_host: self.is_host,
            is_spectator: self.is_spectator,
        }
    }
}

#[verifier::external_type_specification]
#[verifier::external_body]
#[verifier::reject_recursive_types(T)]
pub struct ExSlab<T>(slab::Slab<T>);

/// The occupied entries of the slab, keyed by their handles.
pub uninterp spec fn slab_view(s: slab::Slab<Client>) -> Map<int, ClientV>;

/// Relies on `slab::Slab::new`: the new slab has no entries.
#[verifier::external_body]
pub(crate) fn slab_new() -> (fresh: slab::Slab<Client>)
    ensures
        slab_view(fresh) =~= Map::empty(),
{
    slab::Slab::new()
}

/// Relies on `slab::Slab::len`: the number of occupied entries.
#[verifier::external_body]
pub(crate) fn slab_len(s: &slab::Slab<Client>) -> (n: usize)
    ensures
        n == slab_view(*s).dom().len(),
{
    s.len()
}

/// Relies on `slab::Slab::contains`: whether the key is occupied.
#[verifier::external_body]
pub(crate) fn slab_contains(s: &slab::Slab<Client>, key: usize) -> (b: bool)
    ensures
        b == slab_view(*s).dom().contains(key as int),
{
    s.contains(key)
}

/// Relies on `slab::Slab::insert`: the value is stored under a previously
/// vacant key, and that key is returned.
#[verifier::external_body]
pub(crate) fn slab_insert(s: &mut slab::Slab<Client>, value: Client) -> (key: usize)
    ensures
        !slab_view(*old(s)).dom().contains(key as int),
        slab_view(*final(s)) == slab_view(*old(s)).insert(key as int, value.deep_view()),
{
    s.insert(value)
}

/// Relies on `slab::Slab::remove`: the value under an occupied key is taken
/// out and returned; the key becomes vacant.
#[verifier::external_body]
pub(crate) fn slab_remove(s: &mut slab::Slab<Client>, key: usize) -> (value: Client)
    requires
        slab_view(*old(s)).dom().contains(key as int),
    ensures
        value.deep_view() == slab_view(*old(s))[key as int],
        slab_view(*final(s)) == slab_view(*old(s)).remove(key as int),
{
    s.remove(key)
}

/// Relies on `slab::Slab::iter`: it yields exactly the occupied entries, in
/// increasing key order.
#[verifier::external_body]
pub(crate) fn slab_entries(s: &slab::Slab<Client>) -> (v: Vec<(usize, Client)>)
    ensures
        forall|i: int|
            0 <= i < v@.len() ==> #[trigger] slab_view(*s).dom().contains(v@[i].0 as int)
                && v@[i].1.deep_view() == slab_view(*s)[v@[i].0 as int],
        forall|i: int, j: int| 0 <= i < j < v@.len() ==> v@[i].0 < v@[j].0,
        forall|k: int|
            #[trigger] slab_view(*s).dom().contains(k) ==> exists|i: int|
                0 <= i < v@.len() && v@[i].0 == k,
{
    s.iter().map(|(key, client)| (key, client.clone())).collect()
}

} // verus!
