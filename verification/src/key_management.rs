//! Long-term key material: client signing pairs, the auditor's pair, and the
//! replicas' encryption pairs, all held as plain byte strings.

use vstd::prelude::*;
use crate::crypto::{sign_keypair, box_keypair, gen_sign_keypair, gen_box_keypair, SIGN_PK_LEN,
    SIGN_SK_LEN, BOX_PK_LEN, BOX_SK_LEN};

verus! {

/// Looks an index up in an association list of keys.
pub open spec fn key_lookup(entries: Seq<(usize, Vec<u8>)>, idx: usize) -> Option<Vec<u8>> {
    if exists|j: int| 0 <= j < entries.len() && (#[trigger] entries[j]).0 == idx {
        Some(entries[choose|j: int| 0 <= j < entries.len() && (#[trigger] entries[j]).0 == idx].1)
    } else {
        None
    }
}

/// All indices in an association list are distinct.
pub open spec fn keys_distinct(entries: Seq<(usize, Vec<u8>)>) -> bool {
    forall|i: int, j: int|
        0 <= i < j < entries.len() ==> (#[trigger] entries[i]).0 != (#[trigger] entries[j]).0
}

/// Finds the key of `idx` in an association list.
pub fn find_key(entries: &Vec<(usize, Vec<u8>)>, idx: usize) -> (r: Option<&Vec<u8>>)
    requires
        keys_distinct(entries@),
    ensures
        match r {
            Some(k) => key_lookup(entries@, idx) == Some(*k),
            None => key_lookup(entries@, idx) is None,
        },
{
    let n = entries.len();
    let mut i: usize = 0;
    while i < n
        invariant
            keys_distinct(entries@),
            n == entries@.len(),
            0 <= i <= n,
            forall|j: int| 0 <= j < i ==> (#[trigger] entries@[j]).0 != idx,
        decreases n - i,
    {
        if entries[i].0 == idx {
            proof {
                let k = choose|j: int|
                    0 <= j < entries@.len() && (#[trigger] entries@[j]).0 == idx;
                assert(k == i as int);
            }
            return Some(&entries[i].1);
        }
        i += 1;
    }
    None
}

/// One user's signing pair.
#[derive(Debug, Clone)]
pub struct ClientKeys {
    pub sign_key: Vec<u8>,
    pub public_key: Vec<u8>,
}

impl ClientKeys {
    pub open spec fn wf(self) -> bool {
        &&& self.sign_key@.len() == SIGN_SK_LEN as int
        &&& self.public_key@.len() == SIGN_PK_LEN as int
        &&& sign_keypair(self.public_key@, self.sign_key@)
    }

    pub fn new(sign_key: Vec<u8>, public_key: Vec<u8>) -> (r: ClientKeys)
        ensures
            r.sign_key == sign_key,
            r.public_key == public_key,
    {
        ClientKeys { sign_key, public_key }
    }

    pub fn sign_key(&self) -> (r: &Vec<u8>)
        ensures
            r == &self.sign_key,
    {
        &self.sign_key
    }

    pub fn public_key(&self) -> (r: &Vec<u8>)
        ensures
            r == &self.public_key,
    {
        &self.public_key
    }
}

/// The auditor's signing key and its copy of every user's verify key.
#[derive(Debug, Clone)]
pub struct HAClientKeys {
    pub private_key: Vec<u8>,
    pub client_keys: Vec<(usize, Vec<u8>)>,
}

impl HAClientKeys {
    pub open spec fn wf(self) -> bool {
        &&& self.private_key@.len() == SIGN_SK_LEN as int
        &&& keys_distinct(self.client_keys@)
        &&& forall|j: int|
            0 <= j < self.client_keys@.len() ==> (#[trigger] self.client_keys@[j]).1@.len()
                == SIGN_PK_LEN as int
    }

    pub fn new(private_key: Vec<u8>, client_keys: Vec<(usize, Vec<u8>)>) -> (r: HAClientKeys)
        ensures
            r.private_key == private_key,
            r.client_keys == client_keys,
    {
        HAClientKeys { private_key, client_keys }
    }

    pub fn sign_key(&self) -> (r: &Vec<u8>)
        ensures
            r == &self.private_key,
    {
        &self.private_key
    }

    pub fn client_sign_key(&self, idx: usize) -> (r: Option<&Vec<u8>>)
        requires
            keys_distinct(self.client_keys@),
        ensures
            match r {
                Some(k) => key_lookup(self.client_keys@, idx) == Some(*k),
                None => key_lookup(self.client_keys@, idx) is None,
            },
    {
        find_key(&self.client_keys, idx)
    }
}

/// The encryption public keys of all replicas, by replica id.
#[derive(Debug, Clone)]
pub struct ServerPublicKey {
    pub public_keys: Vec<Vec<u8>>,
}

impl ServerPublicKey {
    pub open spec fn wf(self) -> bool {
        forall|j: int|
            0 <= j < self.public_keys@.len() ==> (#[trigger] self.public_keys@[j])@.len()
                == BOX_PK_LEN as int
    }

    pub fn new(public_keys: Vec<Vec<u8>>) -> (r: ServerPublicKey)
        ensures
            r.public_keys == public_keys,
    {
        ServerPublicKey { public_keys }
    }

    pub fn public_key(&self, server_id: usize) -> (r: &Vec<u8>)
        requires
            server_id < self.public_keys@.len(),
        ensures
            r == &self.public_keys@[server_id as int],
    {
        &self.public_keys[server_id]
    }

    pub fn public_keys(&self) -> (r: &Vec<Vec<u8>>)
        ensures
            r == &self.public_keys,
    {
        &self.public_keys
    }
}

/// One replica's key material: its encryption pair, every user's verify key,
/// and the auditor's verify key.
#[derive(Debug, Clone)]
pub struct ServerKeys {
    pub private_key: Vec<u8>,
    pub public_key: Vec<u8>,
    pub client_keys: Vec<(usize, Vec<u8>)>,
    pub ha_public_key: Vec<u8>,
}

impl ServerKeys {
    pub open spec fn wf(self) -> bool {
        &&& self.private_key@.len() == BOX_SK_LEN as int
        &&& self.public_key@.len() == BOX_PK_LEN as int
        &&& box_keypair(self.public_key@, self.private_key@)
        &&& self.ha_public_key@.len() == SIGN_PK_LEN as int
        &&& keys_distinct(self.client_keys@)
        &&& forall|j: int|
            0 <= j < self.client_keys@.len() ==> (#[trigger] self.client_keys@[j]).1@.len()
                == SIGN_PK_LEN as int
    }

    pub fn new(
        client_keys: Vec<(usize, Vec<u8>)>,
        private_key: Vec<u8>,
        public_key: Vec<u8>,
        ha_key: Vec<u8>,
    ) -> (r: ServerKeys)
        ensures
            r.client_keys == client_keys,
            r.private_key == private_key,
            r.public_key == public_key,
            r.ha_public_key == ha_key,
    {
        ServerKeys { private_key, public_key, client_keys, ha_public_key: ha_key }
    }

    pub fn private_key(&self) -> (r: &Vec<u8>)
        ensures
            r == &self.private_key,
    {
        &self.private_key
    }

    pub fn public_key(&self) -> (r: &Vec<u8>)
        ensures
            r == &self.public_key,
    {
        &self.public_key
    }

    pub fn ha_public_key(&self) -> (r: &Vec<u8>)
        ensures
            r == &self.ha_public_key,
    {
        &self.ha_public_key
    }

    pub fn client_sign_key(&self, idx: usize) -> (r: Option<&Vec<u8>>)
        requires
            keys_distinct(self.client_keys@),
        ensures
            match r {
                Some(k) => key_lookup(self.client_keys@, idx) == Some(*k),
                None => key_lookup(self.client_keys@, idx) is None,
            },
    {
        find_key(&self.client_keys, idx)
    }
}

/// Everything `generate_keys` hands out: per-client pairs, the auditor's
/// material, each replica's material, and the shared list of replica
/// encryption keys.
pub struct KeySet {
    pub client_keys: Vec<ClientKeys>,
    pub ha_keys: HAClientKeys,
    pub server_keys: Vec<ServerKeys>,
    pub server_public: ServerPublicKey,
}

impl KeySet {
    pub open spec fn wf(self) -> bool {
        &&& forall|j: int| 0 <= j < self.client_keys@.len() ==> (#[trigger] self.client_keys@[j]).wf()
        &&& self.ha_keys.wf()
        &&& forall|j: int| 0 <= j < self.server_keys@.len() ==> (#[trigger] self.server_keys@[j]).wf()
        &&& self.server_public.wf()
    }
}

/// Whether two key registries hold the same indices and the same key bytes,
/// entry for entry.
pub open spec fn same_registry(a: Seq<(usize, Vec<u8>)>, b: Seq<(usize, Vec<u8>)>) -> bool {
    &&& a.len() == b.len()
    &&& forall|j: int|
        0 <= j < a.len() ==> (#[trigger] a[j]).0 == (#[trigger] b[j]).0 && a[j].1@ == b[j].1@
}

/// Copies a key registry, entry for entry.
fn clone_registry(v: &Vec<(usize, Vec<u8>)>) -> (r: Vec<(usize, Vec<u8>)>)
    ensures
        same_registry(r@, v@),
{
    let n = v.len();
    let mut out: Vec<(usize, Vec<u8>)> = Vec::new();
    let mut i: usize = 0;
    while i < n
        invariant
            0 <= i <= n,
            n == v@.len(),
            out@.len() == i,
            forall|j: int|
                0 <= j < i ==> (#[trigger] out@[j]).0 == (#[trigger] v@[j]).0 && out@[j].1@
                    == v@[j].1@,
        decreases n - i,
    {
        out.push((v[i].0, v[i].1.clone()));
        i += 1;
    }
    out
}

/// Copies a single key.
fn clone_key(v: &Vec<u8>) -> (r: Vec<u8>)
    ensures
        r@ == v@,
{
    v.clone()
}

/// Generates fresh key material for `n_clients` users and `n_servers`
/// replicas: one signing pair per user (indexed by position), one auditor
/// signing pair, and one encryption pair per replica. Every participant's
/// copy of a shared key holds the same bytes.
pub fn generate_keys(n_clients: usize, n_servers: usize) -> (r: KeySet)
    ensures
        r.wf(),
        r.client_keys@.len() == n_clients,
        r.server_keys@.len() == n_servers,
        r.server_public.public_keys@.len() == n_servers,
        r.ha_keys.client_keys@.len() == n_clients,
        forall|j: int|
            0 <= j < n_clients ==> (#[trigger] r.ha_keys.client_keys@[j]).0 == j
                && r.ha_keys.client_keys@[j].1@ == r.client_keys@[j].public_key@,
        forall|j: int|
            0 <= j < n_servers ==> same_registry(
                (#[trigger] r.server_keys@[j]).client_keys@,
                r.ha_keys.client_keys@,
            ) && r.server_keys@[j].public_key@ == r.server_public.public_keys@[j]@ && box_keypair(
                r.server_keys@[j].public_key@,
                r.server_keys@[j].private_key@,
            ) && r.server_keys@[j].ha_public_key@.len() == SIGN_PK_LEN as int && sign_keypair(
                r.server_keys@[j].ha_public_key@,
                r.ha_keys.private_key@,
            ),
{
    let mut client_keys: Vec<ClientKeys> = Vec::new();
    let mut registry: Vec<(usize, Vec<u8>)> = Vec::new();
    let mut i: usize = 0;
    while i < n_clients
        invariant
            0 <= i <= n_clients,
            client_keys@.len() == i,
            registry@.len() == i,
            forall|j: int| 0 <= j < i ==> (#[trigger] client_keys@[j]).wf(),
            forall|j: int|
                0 <= j < i ==> (#[trigger] registry@[j]).0 == j && registry@[j].1@
                    == client_keys@[j].public_key@,
            forall|j: int|
                0 <= j < i ==> (#[trigger] registry@[j]).1@.len() == SIGN_PK_LEN as int,
        decreases n_clients - i,
    {
        let (pk, sk) = gen_sign_keypair();
        let pk_copy = clone_key(&pk);
        client_keys.push(ClientKeys { sign_key: sk, public_key: pk_copy });
        registry.push((i, pk));
        i += 1;
    }
    proof {
        assert(keys_distinct(registry@));
    }
    let (ha_pk, ha_sk) = gen_sign_keypair();
    let mut server_keys: Vec<ServerKeys> = Vec::new();
    let mut server_pub: Vec<Vec<u8>> = Vec::new();
    let mut s: usize = 0;
    while s < n_servers
        invariant
            0 <= s <= n_servers,
            server_keys@.len() == s,
            server_pub@.len() == s,
            ha_pk@.len() == SIGN_PK_LEN as int,
            ha_sk@.len() == SIGN_SK_LEN as int,
            sign_keypair(ha_pk@, ha_sk@),
            keys_distinct(registry@),
            forall|j: int|
                0 <= j < registry@.len() ==> (#[trigger] registry@[j]).1@.len()
                    == SIGN_PK_LEN as int,
            forall|j: int| 0 <= j < s ==> (#[trigger] server_keys@[j]).wf(),
            forall|j: int|
                0 <= j < s ==> same_registry((#[trigger] server_keys@[j]).client_keys@, registry@)
                    && server_keys@[j].public_key@ == server_pub@[j]@ && box_keypair(
                    server_keys@[j].public_key@,
                    server_keys@[j].private_key@,
                ) && server_keys@[j].ha_public_key@ == ha_pk@,
            forall|j: int|
                0 <= j < s ==> (#[trigger] server_pub@[j])@.len() == BOX_PK_LEN as int,
        decreases n_servers - s,
    {
        let (spk, ssk) = gen_box_keypair();
        let spk_copy = clone_key(&spk);
        server_pub.push(spk_copy);
        let reg_copy = clone_registry(&registry);
        proof {
            assert forall|a: int, b: int|
                0 <= a < b < reg_copy@.len() implies (#[trigger] reg_copy@[a]).0
                != (#[trigger] reg_copy@[b]).0 by {
                assert(reg_copy@[a].0 == registry@[a].0);
                assert(reg_copy@[b].0 == registry@[b].0);
            }
            assert forall|j: int|
                0 <= j < reg_copy@.len() implies (#[trigger] reg_copy@[j]).1@.len()
                == SIGN_PK_LEN as int by {
                assert(reg_copy@[j].1@ == registry@[j].1@);
            }
        }
        server_keys.push(
            ServerKeys {
                private_key: ssk,
                public_key: spk,
                client_keys: reg_copy,
                ha_public_key: clone_key(&ha_pk),
            },
        );
        s += 1;
    }
    KeySet {
        client_keys,
        ha_keys: HAClientKeys { private_key: ha_sk, client_keys: registry },
        server_keys,
        server_public: ServerPublicKey { public_keys: server_pub },
    }
}

} // verus!
