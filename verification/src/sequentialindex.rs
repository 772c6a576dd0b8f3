//! The sequential (BIP44-style) address lookup engine.
//!
//! The engine keeps an explicit table of every address it has derived so
//! far, across accounts and the two chains (external and internal) of each
//! account, together with the path that derived it. Recognition is a
//! lookup in that table. Whenever a path is acknowledged as used, the
//! engine keeps a window of `gap_limit` addresses derived beyond it, so a
//! scan can always run ahead of the highest used index.
//!
//! Deriving an address from a path is the business of a cryptographic
//! scheme outside this library; the engine takes it as a capability whose
//! one promise is that the same path always gives the same address.

use vstd::prelude::*;

use crate::address::{Address, AddressV, Bip44Addressing};
use crate::bytes::{bytes_eq, write_u32};
use crate::lookup::{AddressLookup, AddressLookupError};
use crate::utxo::UTxO;

verus! {

/// The default trailing window of pre-derived addresses.
pub const DEFAULT_GAP_LIMIT: u32 = 20;

/// Accounts with an index above this bound are not derivable.
pub const MAX_ACCOUNTS: usize = 0x8000_0000;

/// Derives the address of a BIP44-style path. The derivation is a pure
/// function of the path: the same path always yields the same address.
pub trait AddressDeriver: Sized {
    /// The address the scheme gives to this path.
    spec fn spec_derived(&self, account: u32, change: u32, index: u32) -> Seq<u8>;

    /// Computes the address of the path.
    fn derive_address(&self, account: u32, change: u32, index: u32) -> (r: Vec<u8>)
        ensures
            r@ == self.spec_derived(account, change, index),
    ;
}

/// A scheme that spells the path out in the address bytes. It stands in
/// where no cryptographic derivation context is wired in, and gives the
/// engine a deterministic, injective derivation to work against.
#[derive(Clone, Copy, Debug)]
pub struct TransparentDeriver {
    pub network_magic: u32,
}

impl AddressDeriver for TransparentDeriver {
    /// The network magic followed by the three path indices.
    open spec fn spec_derived(&self, account: u32, change: u32, index: u32) -> Seq<u8> {
        vstd::bytes::spec_u32_to_le_bytes(self.network_magic) + vstd::bytes::spec_u32_to_le_bytes(
            account,
        ) + vstd::bytes::spec_u32_to_le_bytes(change) + vstd::bytes::spec_u32_to_le_bytes(index)
    }

    fn derive_address(&self, account: u32, change: u32, index: u32) -> (r: Vec<u8>) {
        let mut out: Vec<u8> = Vec::new();
        write_u32(&mut out, self.network_magic);
        write_u32(&mut out, account);
        write_u32(&mut out, change);
        write_u32(&mut out, index);
        proof {
            assert(out@ =~= self.spec_derived(account, change, index));
        }
        out
    }
}

/// Whether the engine's table holds the address of the given path, under
/// that path.
pub open spec fn spec_covers<D: AddressDeriver>(
    deriver: D,
    expected: Seq<(Vec<u8>, Bip44Addressing)>,
    account: u32,
    change: u32,
    index: u32,
) -> bool {
    exists|j: int|
        0 <= j < expected.len() && (#[trigger] expected[j]).1 == (Bip44Addressing {
            account,
            change,
            index,
        }) && expected[j].0@ == deriver.spec_derived(account, change, index)
}

/// The first table entry holding the given address, if any.
pub open spec fn spec_find_expected(s: Seq<(Vec<u8>, Bip44Addressing)>, addr: Seq<u8>) -> Option<
    int,
>
    decreases s.len(),
{
    if s.len() == 0 {
        None
    } else if s[0].0@ == addr {
        Some(0)
    } else {
        match spec_find_expected(s.skip(1), addr) {
            None => None,
            Some(i) => Some(i + 1),
        }
    }
}

/// An entry found at `i` with no earlier entry holding the address is the
/// first one.
proof fn lemma_find_expected_first(s: Seq<(Vec<u8>, Bip44Addressing)>, addr: Seq<u8>, i: int)
    requires
        0 <= i < s.len(),
        s[i].0@ == addr,
        forall|j: int| 0 <= j < i ==> (#[trigger] s[j]).0@ != addr,
    ensures
        spec_find_expected(s, addr) == Some(i),
    decreases i,
{
    if i > 0 {
        assert(s.skip(1)[i - 1] == s[i]);
        assert(forall|j: int| 0 <= j < i - 1 ==> (#[trigger] s.skip(1)[j]) == s[j + 1]);
        lemma_find_expected_first(s.skip(1), addr, i - 1);
    }
}

/// When no entry holds the address, the search comes back empty.
proof fn lemma_find_expected_none(s: Seq<(Vec<u8>, Bip44Addressing)>, addr: Seq<u8>)
    requires
        forall|j: int| 0 <= j < s.len() ==> (#[trigger] s[j]).0@ != addr,
    ensures
        spec_find_expected(s, addr) is None,
    decreases s.len(),
{
    if s.len() > 0 {
        assert(forall|j: int| 0 <= j < s.skip(1).len() ==> (#[trigger] s.skip(1)[j]) == s[j + 1]);
        lemma_find_expected_none(s.skip(1), addr);
    }
}

/// The sequential lookup engine: the derivation capability, the table of
/// derived addresses, and, per account, the first not-yet-derived index of
/// each of the two chains.
pub struct SequentialBip44Lookup<D: AddressDeriver> {
    pub deriver: D,
    pub expected: Vec<(Vec<u8>, Bip44Addressing)>,
    pub accounts: Vec<(u32, u32)>,
    pub gap_limit: u32,
}

impl<D: AddressDeriver> SequentialBip44Lookup<D> {
    /// Every index below an account chain's bound has its address derived
    /// and registered.
    pub open spec fn spec_wf(self) -> bool {
        &&& self.gap_limit >= 1
        &&& self.accounts@.len() <= MAX_ACCOUNTS
        &&& forall|a: int, i: u32|
            0 <= a < self.accounts@.len() && i < self.accounts@[a].0 ==> #[trigger] spec_covers(
                self.deriver,
                self.expected@,
                a as u32,
                0,
                i,
            )
        &&& forall|a: int, i: u32|
            0 <= a < self.accounts@.len() && i < self.accounts@[a].1 ==> #[trigger] spec_covers(
                self.deriver,
                self.expected@,
                a as u32,
                1,
                i,
            )
    }

    /// The derived bound of one account chain.
    pub open spec fn spec_chain_upto(self, account: u32, change: u32) -> u32 {
        if change == 0 {
            self.accounts@[account as int].0
        } else {
            self.accounts@[account as int].1
        }
    }

    /// A fresh engine with no account prepared yet and the default gap
    /// limit.
    pub fn new(deriver: D) -> (r: SequentialBip44Lookup<D>)
        ensures
            r.spec_wf(),
            r.deriver == deriver,
            r.accounts@.len() == 0,
            r.expected@.len() == 0,
            r.gap_limit == DEFAULT_GAP_LIMIT,
    {
        SequentialBip44Lookup {
            deriver,
            expected: Vec::new(),
            accounts: Vec::new(),
            gap_limit: DEFAULT_GAP_LIMIT,
        }
    }

    /// Derives and registers the addresses of the indices `[start,
    /// start+nb)` of one account chain.
    fn generate_from(&mut self, account: u32, change: u32, start: u32, nb: u32)
        requires
            start + nb <= u32::MAX,
        ensures
            final(self).deriver == old(self).deriver,
            final(self).accounts == old(self).accounts,
            final(self).gap_limit == old(self).gap_limit,
            forall|a: u32, c: u32, i: u32|
                spec_covers(old(self).deriver, old(self).expected@, a, c, i) ==> spec_covers(
                    final(self).deriver,
                    final(self).expected@,
                    a,
                    c,
                    i,
                ),
            forall|i: u32|
                start <= i < start + nb ==> spec_covers(
                    final(self).deriver,
                    final(self).expected@,
                    account,
                    change,
                    i,
                ),
    {
        let mut r: u32 = start;
        let stop = start + nb;
        while r < stop
            invariant
                start <= r <= stop,
                stop == start + nb,
                self.deriver == old(self).deriver,
                self.accounts == old(self).accounts,
                self.gap_limit == old(self).gap_limit,
                forall|a: u32, c: u32, i: u32|
                    spec_covers(old(self).deriver, old(self).expected@, a, c, i) ==> spec_covers(
                        self.deriver,
                        self.expected@,
                        a,
                        c,
                        i,
                    ),
                forall|i: u32|
                    start <= i < r ==> spec_covers(
                        self.deriver,
                        self.expected@,
                        account,
                        change,
                        i,
                    ),
            decreases stop - r,
        {
            let addr = self.deriver.derive_address(account, change, r);
            let ghost pre = self.expected@;
            self.expected.push((addr, Bip44Addressing { account, change, index: r }));
            proof {
                let j = self.expected@.len() - 1;
                assert(self.expected@[j].1 == (Bip44Addressing { account, change, index: r }));
                assert(spec_covers(self.deriver, self.expected@, account, change, r));
                assert forall|a: u32, c: u32, i: u32|
                    spec_covers(self.deriver, pre, a, c, i) implies spec_covers(
                    self.deriver,
                    self.expected@,
                    a,
                    c,
                    i,
                ) by {
                    let k = choose|k: int|
                        0 <= k < pre.len() && (#[trigger] pre[k]).1 == (Bip44Addressing {
                            account: a,
                            change: c,
                            index: i,
                        }) && pre[k].0@ == self.deriver.spec_derived(a, c, i);
                    assert(self.expected@[k] == pre[k]);
                }
                assert forall|i: u32|
                    start <= i < r + 1 implies spec_covers(
                    self.deriver,
                    self.expected@,
                    account,
                    change,
                    i,
                ) by {
                    if i < r {
                        assert(spec_covers(self.deriver, pre, account, change, i));
                    }
                }
            }
            r = r + 1;
        }
    }

    /// Seeds a brand-new account: the first `gap_limit` addresses of both
    /// its chains are derived and registered. Fails exactly when no more
    /// account can be derived.
    pub fn prepare_next_account(&mut self) -> (r: Result<(), AddressLookupError>)
        requires
            old(self).spec_wf(),
        ensures
            final(self).spec_wf(),
            final(self).deriver == old(self).deriver,
            final(self).gap_limit == old(self).gap_limit,
            r is Ok <==> old(self).accounts@.len() < MAX_ACCOUNTS,
            r is Ok ==> final(self).accounts@.len() == old(self).accounts@.len() + 1,
            r is Ok ==> forall|c: u32, i: u32|
                c <= 1 && i < old(self).gap_limit ==> #[trigger] spec_covers(
                    final(self).deriver,
                    final(self).expected@,
                    old(self).accounts@.len() as u32,
                    c,
                    i,
                ),
            r is Err ==> *final(self) == *old(self),
    {
        if self.accounts.len() >= MAX_ACCOUNTS {
            return Err(AddressLookupError::SequentialIndexOutOfBound);
        }
        let account = self.accounts.len() as u32;
        let n = self.gap_limit;
        self.generate_from(account, 0, 0, n);
        self.generate_from(account, 1, 0, n);
        self.accounts.push((n, n));
        proof {
            assert forall|a: int, i: u32|
                0 <= a < self.accounts@.len() && i < self.accounts@[a].0
                    implies #[trigger] spec_covers(self.deriver, self.expected@, a as u32, 0, i) by {
                if a < old(self).accounts@.len() {
                    assert(old(self).accounts@[a] == self.accounts@[a]);
                }
            }
            assert forall|a: int, i: u32|
                0 <= a < self.accounts@.len() && i < self.accounts@[a].1
                    implies #[trigger] spec_covers(self.deriver, self.expected@, a as u32, 1, i) by {
                if a < old(self).accounts@.len() {
                    assert(old(self).accounts@[a] == self.accounts@[a]);
                }
            }
        }
        Ok(())
    }

    /// Advances one account chain for a path seen in use: after the call
    /// the chain's derived addresses reach at least `gap_limit` indices
    /// beyond the acknowledged one, the standard gap-limit window. A path
    /// of an unprepared account or of an unknown chain is ignored. Fails
    /// exactly when the window would leave the index domain, and then
    /// changes nothing.
    pub fn threshold_generate(&mut self, addressing: Bip44Addressing) -> (r: Result<
        (),
        AddressLookupError,
    >)
        requires
            old(self).spec_wf(),
        ensures
            final(self).spec_wf(),
            final(self).deriver == old(self).deriver,
            final(self).gap_limit == old(self).gap_limit,
            final(self).accounts@.len() == old(self).accounts@.len(),
            r is Ok <==> (addressing.account >= old(self).accounts@.len() || addressing.change > 1
                || addressing.index + old(self).gap_limit + 1 <= u32::MAX),
            r is Err ==> *final(self) == *old(self),
            (r is Ok && addressing.account < old(self).accounts@.len() && addressing.change <= 1)
                ==> forall|i: u32|
                i <= addressing.index + old(self).gap_limit ==> spec_covers(
                    final(self).deriver,
                    final(self).expected@,
                    addressing.account,
                    addressing.change,
                    i,
                ),
    {
        if (addressing.account as usize) >= self.accounts.len() {
            return Ok(());
        }
        if addressing.change > 1 {
            return Ok(());
        }
        if (addressing.index as u64) + (self.gap_limit as u64) + 1 > (u32::MAX as u64) {
            return Err(AddressLookupError::SequentialIndexOutOfBound);
        }
        let (upto0, upto1) = self.accounts[addressing.account as usize];
        let upto = if addressing.change == 0 {
            upto0
        } else {
            upto1
        };
        let wanted = addressing.index + self.gap_limit + 1;
        if wanted <= upto {
            proof {
                lemma_covered_below_upto(*self, addressing.account, addressing.change, upto);
            }
            return Ok(());
        }
        self.generate_from(addressing.account, addressing.change, upto, wanted - upto);
        let limits = self.accounts[addressing.account as usize];
        let new_limits = if addressing.change == 0 {
            (wanted, limits.1)
        } else {
            (limits.0, wanted)
        };
        self.accounts.set(addressing.account as usize, new_limits);
        proof {
            lemma_covered_below_upto(*old(self), addressing.account, addressing.change, upto);
            assert forall|a: int, i: u32|
                0 <= a < self.accounts@.len() && i < self.accounts@[a].0
                    implies #[trigger] spec_covers(
                self.deriver,
                self.expected@,
                a as u32,
                0,
                i,
            ) by {
                if a == addressing.account as int && addressing.change == 0 {
                    if i < upto {
                        assert(spec_covers(
                            old(self).deriver,
                            old(self).expected@,
                            addressing.account,
                            0,
                            i,
                        ));
                    } else {
                        assert(upto <= i < wanted);
                    }
                } else {
                    assert(self.accounts@[a].0 == old(self).accounts@[a].0);
                    assert(spec_covers(old(self).deriver, old(self).expected@, a as u32, 0, i));
                }
            }
            assert forall|a: int, i: u32|
                0 <= a < self.accounts@.len() && i < self.accounts@[a].1
                    implies #[trigger] spec_covers(
                self.deriver,
                self.expected@,
                a as u32,
                1,
                i,
            ) by {
                if a == addressing.account as int && addressing.change == 1 {
                    if i < upto {
                        assert(spec_covers(
                            old(self).deriver,
                            old(self).expected@,
                            addressing.account,
                            1,
                            i,
                        ));
                    } else {
                        assert(upto <= i < wanted);
                    }
                } else {
                    assert(self.accounts@[a].1 == old(self).accounts@[a].1);
                    assert(spec_covers(old(self).deriver, old(self).expected@, a as u32, 1, i));
                }
            }
            assert forall|i: u32|
                i <= addressing.index + old(self).gap_limit implies spec_covers(
                self.deriver,
                self.expected@,
                addressing.account,
                addressing.change,
                i,
            ) by {
                if i < upto {
                    assert(spec_covers(
                        old(self).deriver,
                        old(self).expected@,
                        addressing.account,
                        addressing.change,
                        i,
                    ));
                } else {
                    assert(upto <= i < wanted);
                }
            }
        }
        Ok(())
    }

    /// The first table entry holding the given address, if any.
    fn find_expected(&self, addr: &Vec<u8>) -> (r: Option<usize>)
        ensures
            r matches Some(j) ==> j < self.expected@.len() && self.expected@[j as int].0@ == addr@
                && spec_find_expected(self.expected@, addr@) == Some(j as int),
            r is None ==> spec_find_expected(self.expected@, addr@) is None,
    {
        let n = self.expected.len();
        let mut j: usize = 0;
        while j < n
            invariant
                j <= n,
                n == self.expected@.len(),
                forall|k: int| 0 <= k < j ==> (#[trigger] self.expected@[k]).0@ != addr@,
            decreases n - j,
        {
            if bytes_eq(&self.expected[j].0, addr) {
                proof {
                    lemma_find_expected_first(self.expected@, addr@, j as int);
                }
                return Some(j);
            }
            j += 1;
        }
        proof {
            lemma_find_expected_none(self.expected@, addr@);
        }
        None
    }
}

/// Indices below a chain's bound are covered: a restatement of the
/// invariant for one chain.
proof fn lemma_covered_below_upto<D: AddressDeriver>(
    s: SequentialBip44Lookup<D>,
    account: u32,
    change: u32,
    upto: u32,
)
    requires
        s.spec_wf(),
        account < s.accounts@.len(),
        change <= 1,
        upto == s.spec_chain_upto(account, change),
    ensures
        forall|i: u32| i < upto ==> spec_covers(s.deriver, s.expected@, account, change, i),
{
    let a = account as int;
    assert forall|i: u32| i < upto implies spec_covers(
        s.deriver,
        s.expected@,
        account,
        change,
        i,
    ) by {
        if change == 0 {
            assert(i < s.accounts@[a].0);
            assert(spec_covers(s.deriver, s.expected@, a as u32, 0, i));
        } else {
            assert(i < s.accounts@[a].1);
            assert(spec_covers(s.deriver, s.expected@, a as u32, 1, i));
        }
    }
}

impl<D: AddressDeriver> AddressLookup for SequentialBip44Lookup<D> {
    open spec fn wf(&self) -> bool {
        self.spec_wf()
    }

    /// Only BIP44-style paths can be acknowledged, and only when the
    /// gap-limit window stays in the index domain.
    open spec fn ack_ok(&self, addressing: AddressV) -> bool {
        match addressing {
            AddressV::Bip44(p) => p.account >= self.accounts@.len() || p.change > 1 || p.index
                + self.gap_limit + 1 <= u32::MAX,
            _ => false,
        }
    }

    /// An address is the wallet's exactly when it stands in the table of
    /// derived addresses; the stored path of its first entry resolves it.
    open spec fn spec_classify(&self, addr: Seq<u8>) -> Option<AddressV> {
        match spec_find_expected(self.expected@, addr) {
            None => None,
            Some(j) => Some(AddressV::Bip44(self.expected@[j].1)),
        }
    }

    /// Classifying fails exactly when the recognized path's gap window
    /// would leave the index domain.
    open spec fn spec_lookup_ok(&self, addr: Seq<u8>) -> bool {
        match spec_find_expected(self.expected@, addr) {
            None => true,
            Some(j) => self.ack_ok(AddressV::Bip44(self.expected@[j].1)),
        }
    }

    /// Recognizes an output whose address stands in the table of derived
    /// addresses, resolves it to its path, and keeps the gap-limit window
    /// of that path's chain ahead, exactly as `acknowledge` would.
    fn lookup(&mut self, utxo: UTxO<Vec<u8>>) -> (r: Result<
        Option<UTxO<Address>>,
        AddressLookupError,
    >)
        ensures
            forall|p: Bip44Addressing, i: u32|
                (r matches Ok(Some(_)) && old(self).spec_classify(utxo@.credited_address)
                    == Some(AddressV::Bip44(p)) && p.account < old(self).accounts@.len()
                    && p.change <= 1 && i <= p.index + old(self).gap_limit)
                    ==> #[trigger] spec_covers(
                    final(self).deriver,
                    final(self).expected@,
                    p.account,
                    p.change,
                    i,
                ),
    {
        match self.find_expected(&utxo.credited_address) {
            None => Ok(None),
            Some(j) => {
                let addressing = self.expected[j].1;
                match self.threshold_generate(addressing) {
                    Ok(()) => {},
                    Err(e) => {
                        return Err(e);
                    },
                }
                Ok(Some(utxo.map(Address::Bip44(addressing))))
            },
        }
    }

    /// Acknowledging a used path keeps the window of derived addresses
    /// ahead of it; anything but a BIP44-style path is refused.
    fn acknowledge(&mut self, address: Address) -> (r: Result<(), AddressLookupError>)
        ensures
            forall|p: Bip44Addressing, i: u32|
                (r is Ok && address@ == AddressV::Bip44(p) && p.account < old(
                    self,
                ).accounts@.len() && p.change <= 1 && i <= p.index + old(self).gap_limit)
                    ==> #[trigger] spec_covers(
                    final(self).deriver,
                    final(self).expected@,
                    p.account,
                    p.change,
                    i,
                ),
    {
        match address {
            Address::Bip44(p) => self.threshold_generate(p),
            _ => Err(AddressLookupError::SequentialNotABip44Address),
        }
    }
}

} // verus!
