//! The wallet store: one record per normalized address, each with a
//! single-use nonce that only a compare-and-set rotation replaces.

use vstd::prelude::*;
use crate::address::{address_of_text, checksum_of, to_full_addr, Address};
use crate::errors::{AuthError, StoreError};
use crate::message::{create_message, message_text};
use crate::signature::{signed_by, verify};

verus! {

/// A wallet's record.
#[derive(Debug, PartialEq, Eq)]
pub struct Wallet {
    /// Assigned at creation: the wallet's position in creation order.
    pub id: u64,
    /// The checksummed address.
    pub address: String,
    /// The challenge the next login must sign.
    pub nonce: String,
    pub created_at: u64,
    /// Changes with every nonce rotation.
    pub updated_at: u64,
}

/// What a wallet record holds.
pub struct WalletV {
    pub id: u64,
    pub address: Seq<char>,
    pub nonce: Seq<char>,
    pub created_at: u64,
    pub updated_at: u64,
}

impl View for Wallet {
    type V = WalletV;

    open spec fn view(&self) -> WalletV {
        WalletV {
            id: self.id,
            address: self.address@,
            nonce: self.nonce@,
            created_at: self.created_at,
            updated_at: self.updated_at,
        }
    }
}

impl Wallet {
    pub fn copy(&self) -> (r: Wallet)
        ensures
            r@ == self@,
    {
        Wallet {
            id: self.id,
            address: self.address.clone(),
            nonce: self.nonce.clone(),
            created_at: self.created_at,
            updated_at: self.updated_at,
        }
    }
}

/// Records are kept in creation order, each id is its position, and no two
/// records share an address.
pub open spec fn store_wf(ws: Seq<WalletV>) -> bool {
    &&& forall|i: int| 0 <= i < ws.len() ==> (#[trigger] ws[i]).id == i
    &&& forall|i: int, j: int|
        0 <= i < ws.len() && 0 <= j < ws.len() && i != j ==> (#[trigger] ws[i]).address
            != (#[trigger] ws[j]).address
}

/// The record for `address`, if there is one.
pub open spec fn lookup(ws: Seq<WalletV>, address: Seq<char>) -> Option<WalletV>
    decreases ws.len(),
{
    if ws.len() == 0 {
        None
    } else if ws.last().address == address {
        Some(ws.last())
    } else {
        lookup(ws.drop_last(), address)
    }
}

/// The record that creation appends for `address`.
pub open spec fn fresh_wallet(ws: Seq<WalletV>, address: Seq<char>, nonce: Seq<char>, now: u64) -> WalletV {
    WalletV { id: ws.len() as u64, address, nonce, created_at: now, updated_at: now }
}

/// `w` with its nonce replaced at time `now`.
pub open spec fn rotated(w: WalletV, nonce: Seq<char>, now: u64) -> WalletV {
    WalletV { nonce, updated_at: now, ..w }
}

/// Compare-and-set rotation: the nonce of `address` becomes `fresh` only
/// if it is still `observed`, and `fresh` differs from it.
pub open spec fn rotate_transition(
    ws: Seq<WalletV>,
    address: Seq<char>,
    observed: Seq<char>,
    fresh: Seq<char>,
    now: u64,
) -> (Seq<WalletV>, Result<WalletV, StoreError>) {
    match lookup(ws, address) {
        None => (ws, Err(StoreError::NotFound)),
        Some(w) => if w.nonce != observed || fresh == observed {
            (ws, Err(StoreError::Conflict))
        } else {
            (ws.update(w.id as int, rotated(w, fresh, now)), Ok(rotated(w, fresh, now)))
        },
    }
}

pub proof fn lemma_lookup_none(ws: Seq<WalletV>, address: Seq<char>)
    ensures
        lookup(ws, address) is None <==> forall|i: int| 0 <= i < ws.len() ==> (#[trigger] ws[i]).address != address,
    decreases ws.len(),
{
    if ws.len() > 0 {
        lemma_lookup_none(ws.drop_last(), address);
        if ws.last().address != address {
            assert forall|i: int| 0 <= i < ws.len() - 1 implies #[trigger] ws[i] == ws.drop_last()[i] by {}
        }
    }
}

pub proof fn lemma_lookup_at(ws: Seq<WalletV>, address: Seq<char>, i: int)
    requires
        store_wf(ws),
        0 <= i < ws.len(),
        ws[i].address == address,
    ensures
        lookup(ws, address) == Some(ws[i]),
    decreases ws.len(),
{
    if i != ws.len() - 1 {
        assert(ws.last() == ws[ws.len() - 1]);
        let d = ws.drop_last();
        assert(d[i] == ws[i]);
        assert(store_wf(d)) by {
            assert forall|k: int| 0 <= k < d.len() implies (#[trigger] d[k]).id == k by {
                assert(d[k] == ws[k]);
            }
            assert forall|k: int, l: int|
                0 <= k < d.len() && 0 <= l < d.len() && k != l implies (#[trigger] d[k]).address != (
            #[trigger] d[l]).address by {
                assert(d[k] == ws[k] && d[l] == ws[l]);
            }
        }
        lemma_lookup_at(d, address, i);
    }
}

pub proof fn lemma_lookup_found(ws: Seq<WalletV>, address: Seq<char>)
    requires
        store_wf(ws),
        lookup(ws, address) is Some,
    ensures
        0 <= lookup(ws, address).unwrap().id < ws.len(),
        ws[lookup(ws, address).unwrap().id as int] == lookup(ws, address).unwrap(),
        lookup(ws, address).unwrap().address == address,
{
    lemma_lookup_none(ws, address);
    let i = choose|i: int| 0 <= i < ws.len() && (#[trigger] ws[i]).address == address;
    lemma_lookup_at(ws, address, i);
}

pub proof fn lemma_lookup_push(ws: Seq<WalletV>, w: WalletV, address: Seq<char>)
    ensures
        lookup(ws.push(w), address) == (if w.address == address { Some(w) } else { lookup(ws, address) }),
{
    assert(ws.push(w).drop_last() =~= ws);
}

pub proof fn lemma_lookup_update(ws: Seq<WalletV>, i: int, w: WalletV, address: Seq<char>)
    requires
        store_wf(ws),
        0 <= i < ws.len(),
        w.id == i,
        w.address == ws[i].address,
    ensures
        store_wf(ws.update(i, w)),
        lookup(ws.update(i, w), address) == (if w.address == address { Some(w) } else { lookup(ws, address) }),
{
    let u = ws.update(i, w);
    assert(store_wf(u)) by {
        assert forall|k: int, l: int|
            0 <= k < u.len() && 0 <= l < u.len() && k != l implies (#[trigger] u[k]).address != (
        #[trigger] u[l]).address by {
            assert(u[k].address == ws[k].address && u[l].address == ws[l].address);
        }
    }
    if w.address == address {
        lemma_lookup_at(u, address, i);
    } else {
        lemma_lookup_none(ws, address);
        lemma_lookup_none(u, address);
        if lookup(ws, address) is Some {
            let j = choose|j: int| 0 <= j < ws.len() && (#[trigger] ws[j]).address == address;
            lemma_lookup_at(ws, address, j);
            lemma_lookup_at(u, address, j);
        } else {
            assert forall|k: int| 0 <= k < u.len() implies (#[trigger] u[k]).address != address by {
                assert(u[k].address == ws[k].address);
            }
        }
    }
}

pub proof fn lemma_push_wf(ws: Seq<WalletV>, w: WalletV)
    requires
        store_wf(ws),
        w.id == ws.len(),
        lookup(ws, w.address) is None,
    ensures
        store_wf(ws.push(w)),
{
    lemma_lookup_none(ws, w.address);
    let p = ws.push(w);
    assert forall|k: int| 0 <= k < p.len() implies (#[trigger] p[k]).id == k by {
        if k < ws.len() {
            assert(p[k] == ws[k]);
        }
    }
    assert forall|k: int, l: int|
        0 <= k < p.len() && 0 <= l < p.len() && k != l implies (#[trigger] p[k]).address != (
    #[trigger] p[l]).address by {
        if k < ws.len() {
            assert(p[k] == ws[k]);
        }
        if l < ws.len() {
            assert(p[l] == ws[l]);
        }
    }
}

/// Relies on uuid::Uuid::new_v4: a random 128-bit value, in its text form.
#[verifier::external_body]
pub(crate) fn new_nonce() -> (r: String) {
    uuid::Uuid::new_v4().to_string()
}

/// The wallet store.
pub struct WalletService {
    wallets: Vec<Wallet>,
}

impl View for WalletService {
    type V = Seq<WalletV>;

    closed spec fn view(&self) -> Seq<WalletV> {
        self.wallets@.map_values(|w: Wallet| w@)
    }
}

impl WalletService {
    pub open spec fn wf(&self) -> bool {
        store_wf(self@)
    }

    pub fn new() -> (r: Self)
        ensures
            r.wf(),
            r@ == Seq::<WalletV>::empty(),
    {
        let r = WalletService { wallets: Vec::new() };
        assert(r@ =~= Seq::<WalletV>::empty());
        r
    }

    /// The number of wallets recorded.
    pub fn len(&self) -> (r: usize)
        ensures
            r == self@.len(),
    {
        self.wallets.len()
    }

    fn find(&self, address: &String) -> (r: Option<usize>)
        requires
            self.wf(),
        ensures
            match r {
                Some(i) => i < self@.len() && lookup(self@, address@) == Some(self@[i as int]),
                None => lookup(self@, address@) is None,
            },
    {
        let mut i: usize = 0;
        while i < self.wallets.len()
            invariant
                self.wf(),
                i <= self@.len(),
                self@.len() == self.wallets@.len(),
                forall|j: int| 0 <= j < i ==> (#[trigger] self@[j]).address != address@,
            decreases self.wallets@.len() - i,
        {
            assert(self@[i as int] == self.wallets@[i as int]@);
            if self.wallets[i].address == *address {
                proof {
                    lemma_lookup_at(self@, address@, i as int);
                }
                return Some(i);
            }
            i = i + 1;
        }
        proof {
            lemma_lookup_none(self@, address@);
        }
        None
    }

    /// The wallet recorded for `addr`.
    pub fn get_wallet(&self, addr: &Address) -> (r: Result<Wallet, StoreError>)
        requires
            self.wf(),
        ensures
            match r {
                Ok(w) => lookup(self@, checksum_of(addr@)) == Some(w@) && address_of_text(w.address@) == Some(addr@),
                Err(e) => e == StoreError::NotFound && lookup(self@, checksum_of(addr@)) is None,
            },
    {
        let key = to_full_addr(addr);
        match self.find(&key) {
            Some(i) => {
                assert(self@[i as int] == self.wallets@[i as int]@);
                proof {
                    lemma_lookup_found(self@, key@);
                }
                Ok(self.wallets[i].copy())
            },
            None => Err(StoreError::NotFound),
        }
    }

    fn push_new(&mut self, key: String, nonce: String, now: u64) -> (r: Wallet)
        requires
            old(self).wf(),
            lookup(old(self)@, key@) is None,
        ensures
            final(self).wf(),
            r@ == fresh_wallet(old(self)@, key@, nonce@, now),
            final(self)@ == old(self)@.push(r@),
    {
        let w = Wallet {
            id: self.wallets.len() as u64,
            address: key,
            nonce,
            created_at: now,
            updated_at: now,
        };
        let r = w.copy();
        proof {
            lemma_push_wf(self@, w@);
        }
        self.wallets.push(w);
        assert(self@ =~= old(self)@.push(r@));
        r
    }

    /// Records a new wallet for `addr` with the given first nonce; refused
    /// when the address already has one.
    pub fn create_wallet(&mut self, addr: &Address, nonce: String, now: u64) -> (r: Result<Wallet, StoreError>)
        requires
            old(self).wf(),
        ensures
            final(self).wf(),
            match lookup(old(self)@, checksum_of(addr@)) {
                Some(_) => r == Err::<Wallet, StoreError>(StoreError::Conflict) && final(self)@ == old(self)@,
                None => r matches Ok(w) && w@ == fresh_wallet(old(self)@, checksum_of(addr@), nonce@, now)
                    && final(self)@ == old(self)@.push(w@),
            },
    {
        let key = to_full_addr(addr);
        match self.find(&key) {
            Some(_) => Err(StoreError::Conflict),
            None => Ok(self.push_new(key, nonce, now)),
        }
    }

    /// The wallet for `addr`, created with `nonce` if there was none; an
    /// existing wallet is returned unchanged.
    pub fn upsert_wallet(&mut self, addr: &Address, nonce: String, now: u64) -> (r: Wallet)
        requires
            old(self).wf(),
        ensures
            final(self).wf(),
            match lookup(old(self)@, checksum_of(addr@)) {
                Some(w) => r@ == w && final(self)@ == old(self)@,
                None => r@ == fresh_wallet(old(self)@, checksum_of(addr@), nonce@, now)
                    && final(self)@ == old(self)@.push(r@),
            },
    {
        let key = to_full_addr(addr);
        match self.find(&key) {
            Some(i) => {
                assert(self@[i as int] == self.wallets@[i as int]@);
                self.wallets[i].copy()
            },
            None => self.push_new(key, nonce, now),
        }
    }

    /// Replaces the nonce of `addr` with `fresh`, provided it is still
    /// `observed`: of two rotations that observed one nonce, one wins.
    pub fn update_nonce(&mut self, addr: &Address, observed: &String, fresh: String, now: u64) -> (r: Result<Wallet, StoreError>)
        requires
            old(self).wf(),
        ensures
            final(self).wf(),
            ({
                let (ws, out) = rotate_transition(old(self)@, checksum_of(addr@), observed@, fresh@, now);
                &&& final(self)@ == ws
                &&& match r {
                    Ok(w) => out == Ok::<WalletV, StoreError>(w@),
                    Err(e) => out == Err::<WalletV, StoreError>(e),
                }
            }),
    {
        let key = to_full_addr(addr);
        let i = match self.find(&key) {
            Some(i) => i,
            None => return Err(StoreError::NotFound),
        };
        assert(self@[i as int] == self.wallets@[i as int]@);
        proof {
            lemma_lookup_found(self@, key@);
        }
        if self.wallets[i].nonce != *observed || fresh == *observed {
            return Err(StoreError::Conflict);
        }
        let mut w = self.wallets[i].copy();
        w.nonce = fresh;
        w.updated_at = now;
        let r = w.copy();
        proof {
            lemma_lookup_update(self@, i as int, w@, key@);
        }
        self.wallets.set(i, w);
        assert(self@ =~= old(self)@.update(i as int, r@));
        Ok(r)
    }
}

/// How a failed rotation reads to a client that is logging in.
pub open spec fn login_failure(e: StoreError) -> AuthError {
    match e {
        StoreError::NotFound => AuthError::WalletNotFound,
        StoreError::Conflict => AuthError::NonceConflict,
    }
}

impl WalletService {
    /// Checks `signature` over the wallet's current challenge and, only if
    /// it holds, replaces the nonce that was signed with `fresh`. A failed
    /// check changes nothing, so the owner can retry.
    pub fn verify_and_update_nonce(&mut self, wallet: &Wallet, signature: &str, fresh: String, now: u64) -> (r: Result<Wallet, AuthError>)
        requires
            old(self).wf(),
        ensures
            final(self).wf(),
            match address_of_text(wallet.address@) {
                None => r == Err::<Wallet, AuthError>(AuthError::InvalidAddress) && final(self)@ == old(self)@,
                Some(a) => if !signed_by(message_text(checksum_of(a), wallet.nonce@), signature@, a) {
                    r == Err::<Wallet, AuthError>(AuthError::InvalidSignature) && final(self)@ == old(self)@
                } else {
                    let (ws, out) = rotate_transition(old(self)@, checksum_of(a), wallet.nonce@, fresh@, now);
                    &&& final(self)@ == ws
                    &&& match r {
                        Ok(w) => out == Ok::<WalletV, StoreError>(w@),
                        Err(e) => out is Err && e == login_failure(out->Err_0),
                    }
                },
            },
    {
        let addr = match Address::from_text(wallet.address.as_str()) {
            Some(a) => a,
            None => return Err(AuthError::InvalidAddress),
        };
        match verify_signature(wallet, signature) {
            Ok(()) => {},
            Err(e) => return Err(e),
        }
        match self.update_nonce(&addr, &wallet.nonce, fresh, now) {
            Ok(w) => Ok(w),
            Err(StoreError::NotFound) => Err(AuthError::WalletNotFound),
            Err(StoreError::Conflict) => Err(AuthError::NonceConflict),
        }
    }
}

/// Checks that `signature` was made by the wallet's address over the message
/// for the wallet's current nonce.
pub fn verify_signature(wallet: &Wallet, signature: &str) -> (r: Result<(), AuthError>)
    ensures
        match address_of_text(wallet.address@) {
            None => r == Err::<(), AuthError>(AuthError::InvalidAddress),
            Some(a) => (r is Ok <==> signed_by(message_text(checksum_of(a), wallet.nonce@), signature@, a))
                && (r is Err ==> r == Err::<(), AuthError>(AuthError::InvalidSignature)),
        },
{
    let addr = match Address::from_text(wallet.address.as_str()) {
        Some(a) => a,
        None => return Err(AuthError::InvalidAddress),
    };
    let message = create_message(&addr, wallet.nonce.as_str());
    verify(message.as_str(), signature, &addr)
}

} // verus!
