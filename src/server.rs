//! The backend's endpoint as plain values, and the choice of the container
//! network whose address the proxy connects to.

use vstd::prelude::*;

verus! {

/// Port the game server listens on inside its container.
pub const BACKEND_PORT: u16 = 25565;

/// Where the backend is reached: the name sent as the handshake's
/// `server_host`, and the IPv4 address and port to connect to.
#[derive(Debug, Clone)]
pub struct HostData {
    pub host: String,
    pub ip: [u8; 4],
    pub port: u16,
}

/// The network that a container joins by default.
pub open spec fn is_default_network(name: Seq<char>) -> bool {
    name == "bridge"@
}

/// Which of a container's networks, listed in `names`, gives the backend's
/// address: the first one named `bridge`, else the first one listed; none
/// when the container is on no network.
pub fn choose_network(names: &Vec<String>) -> (r: Option<usize>)
    ensures
        names@.len() == 0 ==> r is None,
        (exists|i: int| 0 <= i < names@.len() && is_default_network(#[trigger] names@[i]@))
            ==> (r matches Some(i) && i < names@.len() && is_default_network(names@[i as int]@)
            && forall|j: int| 0 <= j < i ==> !is_default_network(#[trigger] names@[j]@)),
        names@.len() > 0 && (forall|i: int|
            0 <= i < names@.len() ==> !is_default_network(#[trigger] names@[i]@)) ==> r == Some(
            0usize,
        ),
{
    let bridge = "bridge".to_owned();
    proof {
        reveal_strlit("bridge");
    }
    let mut i: usize = 0;
    while i < names.len()
        invariant
            i <= names@.len(),
            bridge@ == "bridge"@,
            forall|j: int| 0 <= j < i ==> !is_default_network(#[trigger] names@[j]@),
        decreases names@.len() - i,
    {
        if names[i] == bridge {
            return Some(i);
        }
        i = i + 1;
    }
    if names.len() == 0 {
        None
    } else {
        Some(0)
    }
}

} // verus!
