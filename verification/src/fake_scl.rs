//! An in-memory vault that stands in for the network: coin balances owned by
//! public keys, transfers between them, published immutable data, sequenced
//! append-only data and sequenced mutable data, each kept by the hex text of its
//! XoR name.
use vstd::prelude::*;

use crate::coins::{coins_text, coins_to_string};
use crate::error::{Error, Result};
use crate::helpers::{vec_to_hex, xorname_to_hex};
use crate::nrs::{pairs_view, sha3_256, sha3_256_digest};
use crate::table::{keys_sorted, table_get, table_insert, table_view};
use crate::text::{decimal, hex_of, owned, push_decimal, push_str, u64_to_decimal};
use crate::xorurl::{create_random_xorname, XorName};

verus! {

/// A balance: the public key that owns it, and its amount in nano coins.
#[derive(Debug)]
pub struct SafeKey {
    pub owner: Vec<u8>,
    pub value: u64,
}

/// A value of sequenced mutable data, with its version.
#[derive(Debug)]
pub struct MDataSeqValue {
    pub data: Vec<u8>,
    pub version: u64,
}

/// A transfer of coins: its id and its amount in nano coins.
#[derive(Debug, Clone, Copy, PartialEq, Eq)]
pub struct Transaction {
    pub id: u64,
    pub amount: u64,
}

/// An entry of append-only data: a key and a value.
pub type AppendOnlyDataRawData = (Vec<u8>, Vec<u8>);

/// The contents of the vault, each table keyed by the hex text of a XoR name.
#[derive(Debug)]
pub struct FakeData {
    pub coin_balances: Vec<(String, SafeKey)>,
    /// The status of each transfer to a XoR name, by the decimal text of its id.
    pub txs: Vec<(String, Vec<(String, String)>)>,
    pub published_seq_append_only: Vec<(String, Vec<AppendOnlyDataRawData>)>,
    /// The entries of each mutable data, by the hex text of their keys.
    pub mutable_data: Vec<(String, Vec<(String, MDataSeqValue)>)>,
    pub published_immutable_data: Vec<(String, Vec<u8>)>,
}

/// A vault kept in memory.
#[derive(Debug)]
pub struct SafeAppFake {
    pub fake_vault: FakeData,
}

/// The key of a XoR name in the vault's tables.
pub open spec fn key_of(x: XorName) -> Seq<char> {
    hex_of(x.0@)
}

/// The XoR name of a public key: the SHA3-256 digest of its bytes.
pub open spec fn pk_xorname(pk: Seq<u8>) -> Seq<u8> {
    sha3_256_digest(pk)
}

/// The key of a public key's balance in the vault's tables.
pub open spec fn key_of_pk(pk: Seq<u8>) -> Seq<char> {
    hex_of(pk_xorname(pk))
}

/// The short text of a XoR name: its first three bytes in hex, then `..`.
pub open spec fn xorname_short(x: XorName) -> Seq<char> {
    hex_of(x.0@.take(3)) + ".."@
}

/// The XoR name of a public key (see `pk_xorname`).
pub fn xorname_from_pk(pk: &[u8]) -> (res: XorName)
    ensures
        res.0@ == pk_xorname(pk@),
{
    XorName(sha3_256(pk))
}

/// A copy of some bytes.
fn clone_bytes(v: &[u8]) -> (res: Vec<u8>)
    ensures
        res@ == v@,
{
    let mut res: Vec<u8> = Vec::new();
    let mut i: usize = 0;
    while i < v.len()
        invariant
            i <= v@.len(),
            res@ == v@.take(i as int),
        decreases v@.len() - i,
    {
        res.push(v[i]);
        proof {
            assert(res@ =~= v@.take(i + 1));
        }
        i = i + 1;
    }
    proof {
        assert(v@.take(v@.len() as int) =~= v@);
    }
    res
}

/// The view of append-only data: its entries as pairs of byte sequences.
pub open spec fn ad_view(d: Seq<AppendOnlyDataRawData>) -> Seq<(Seq<u8>, Seq<u8>)> {
    d.map_values(|e: AppendOnlyDataRawData| (e.0@, e.1@))
}

fn clone_entry(e: &AppendOnlyDataRawData) -> (res: AppendOnlyDataRawData)
    ensures
        res.0@ == e.0@,
        res.1@ == e.1@,
{
    (clone_bytes(e.0.as_slice()), clone_bytes(e.1.as_slice()))
}

fn clone_entries(d: &Vec<AppendOnlyDataRawData>) -> (res: Vec<AppendOnlyDataRawData>)
    ensures
        ad_view(res@) == ad_view(d@),
{
    let mut res: Vec<AppendOnlyDataRawData> = Vec::new();
    let mut i: usize = 0;
    while i < d.len()
        invariant
            i <= d@.len(),
            res@.len() == i,
            ad_view(res@) == ad_view(d@.take(i as int)),
        decreases d@.len() - i,
    {
        let ghost before = res@;
        res.push(clone_entry(&d[i]));
        proof {
            assert forall|j: int| 0 <= j < i + 1 implies ad_view(res@)[j] == ad_view(d@.take(i + 1))[j] by {
                if j < i {
                    assert(res@[j] == before[j]);
                    assert(ad_view(before)[j] == ad_view(d@.take(i as int))[j]);
                }
            }
            assert(ad_view(res@) =~= ad_view(d@.take(i + 1)));
        }
        i = i + 1;
    }
    proof {
        assert(d@.take(d@.len() as int) =~= d@);
    }
    res
}

/// The view of the entries of mutable data: each hex key with its value and version.
pub open spec fn mdata_view(m: Seq<(String, MDataSeqValue)>) -> Map<Seq<char>, (Seq<u8>, u64)> {
    table_view(m).map_values(|v: MDataSeqValue| (v.data@, v.version))
}

fn clone_mdata(m: &Vec<(String, MDataSeqValue)>) -> (res: Vec<(String, MDataSeqValue)>)
    ensures
        mdata_view(res@) == mdata_view(m@),
{
    let mut res: Vec<(String, MDataSeqValue)> = Vec::new();
    let mut i: usize = 0;
    proof {
        assert(mdata_view(res@) =~= mdata_view(m@.take(0)));
    }
    while i < m.len()
        invariant
            i <= m@.len(),
            mdata_view(res@) == mdata_view(m@.take(i as int)),
        decreases m@.len() - i,
    {
        let ghost before = res@;
        let v = MDataSeqValue { data: clone_bytes(m[i].1.data.as_slice()), version: m[i].1.version };
        let ghost vv = (v.data@, v.version);
        table_insert(&mut res, m[i].0.clone(), v);
        proof {
            let t = m@.take(i + 1);
            assert(t.drop_last() =~= m@.take(i as int));
            assert(t.last() == m@[i as int]);
            assert(mdata_view(res@) =~= mdata_view(before).insert(m@[i as int].0@, vv));
            assert(mdata_view(res@) =~= mdata_view(m@.take(i + 1)));
        }
        i = i + 1;
    }
    proof {
        assert(m@.take(m@.len() as int) =~= m@);
    }
    res
}

impl SafeAppFake {
    /// The balances of the vault, by the key of their XoR name.
    pub open spec fn balances(&self) -> Map<Seq<char>, SafeKey> {
        table_view(self.fake_vault.coin_balances@)
    }

    /// The transfers recorded for each XoR name: status by decimal text of the id.
    pub open spec fn transfers(&self) -> Map<Seq<char>, Map<Seq<char>, Seq<char>>> {
        table_view(self.fake_vault.txs@).map_values(|l: Vec<(String, String)>| pairs_view(l@))
    }

    /// The published immutable data, by the key of its XoR name.
    pub open spec fn immutable_data(&self) -> Map<Seq<char>, Seq<u8>> {
        table_view(self.fake_vault.published_immutable_data@).map_values(|v: Vec<u8>| v@)
    }

    /// The sequenced append-only data, by the key of its XoR name.
    pub open spec fn append_only_data(&self) -> Map<Seq<char>, Seq<(Seq<u8>, Seq<u8>)>> {
        table_view(self.fake_vault.published_seq_append_only@).map_values(
            |d: Vec<AppendOnlyDataRawData>| ad_view(d@),
        )
    }

    /// The sequenced mutable data, by the key of its XoR name.
    pub open spec fn mutable_data(&self) -> Map<Seq<char>, Map<Seq<char>, (Seq<u8>, u64)>> {
        table_view(self.fake_vault.mutable_data@).map_values(
            |m: Vec<(String, MDataSeqValue)>| mdata_view(m@),
        )
    }

    /// Whether the XoR names of each of the vault's tables come in increasing order,
    /// each once, as in the maps that they stand for.
    pub open spec fn wf(&self) -> bool {
        &&& keys_sorted(self.fake_vault.coin_balances@)
        &&& keys_sorted(self.fake_vault.txs@)
        &&& keys_sorted(self.fake_vault.published_seq_append_only@)
        &&& keys_sorted(self.fake_vault.mutable_data@)
        &&& keys_sorted(self.fake_vault.published_immutable_data@)
    }

    /// An empty vault.
    pub fn new() -> (res: SafeAppFake)
        ensures
            res.wf(),
            res.balances() == Map::<Seq<char>, SafeKey>::empty(),
            res.transfers() == Map::<Seq<char>, Map<Seq<char>, Seq<char>>>::empty(),
            res.immutable_data() == Map::<Seq<char>, Seq<u8>>::empty(),
            res.append_only_data() == Map::<Seq<char>, Seq<(Seq<u8>, Seq<u8>)>>::empty(),
            res.mutable_data() == Map::<Seq<char>, Map<Seq<char>, (Seq<u8>, u64)>>::empty(),
    {
        let res = SafeAppFake {
            fake_vault: FakeData {
                coin_balances: Vec::new(),
                txs: Vec::new(),
                published_seq_append_only: Vec::new(),
                mutable_data: Vec::new(),
                published_immutable_data: Vec::new(),
            },
        };
        proof {
            assert(res.transfers() =~= Map::empty());
            assert(res.immutable_data() =~= Map::empty());
            assert(res.append_only_data() =~= Map::empty());
            assert(res.mutable_data() =~= Map::empty());
        }
        res
    }

    /// There is no network to connect to: always succeeds.
    pub fn connect(&mut self, _app_id: &str, _auth_credentials: Option<&str>) -> (res: Result<()>)
        ensures
            res is Ok,
            *final(self) == *old(self),
    {
        Ok(())
    }

    fn get_balance_from_xorname(&self, xorname: &XorName) -> (res: Result<u64>)
        ensures
            match self.balances().get(key_of(*xorname)) {
                Some(k) => res == Ok::<u64, Error>(k.value),
                None => res matches Err(Error::ContentNotFound(m)) && m@ == "SafeKey data not found"@,
            },
    {
        let key = xorname_to_hex(xorname);
        match table_get(&self.fake_vault.coin_balances, key.as_str()) {
            None => Err(Error::ContentNotFound(owned("SafeKey data not found"))),
            Some(k) => Ok(k.value),
        }
    }

    fn fetch_pk_from_xorname(&self, xorname: &XorName) -> (res: Result<Vec<u8>>)
        ensures
            match self.balances().get(key_of(*xorname)) {
                Some(k) => res matches Ok(pk) && pk@ == k.owner@,
                None => res matches Err(Error::ContentNotFound(m)) && m@ == "SafeKey data not found"@,
            },
    {
        let key = xorname_to_hex(xorname);
        match table_get(&self.fake_vault.coin_balances, key.as_str()) {
            None => Err(Error::ContentNotFound(owned("SafeKey data not found"))),
            Some(k) => Ok(clone_bytes(k.owner.as_slice())),
        }
    }

    /// Takes `amount` nano coins from the balance of the public key `pk`.
    fn substract_coins(&mut self, pk: &[u8], amount: u64) -> (res: Result<()>)
        ensures
            old(self).wf() ==> final(self).wf(),
            final(self).fake_vault.txs == old(self).fake_vault.txs,
            final(self).fake_vault.published_seq_append_only == old(self).fake_vault.published_seq_append_only,
            final(self).fake_vault.mutable_data == old(self).fake_vault.mutable_data,
            final(self).fake_vault.published_immutable_data == old(self).fake_vault.published_immutable_data,
            match old(self).balances().get(key_of_pk(pk@)) {
                None => res matches Err(Error::ContentNotFound(m)) && m@ == "SafeKey data not found"@
                    && final(self).balances() == old(self).balances(),
                Some(k) => if k.value < amount {
                    res matches Err(Error::NotEnoughBalance(m)) && m@ == coins_text(k.value as nat)
                        && final(self).balances() == old(self).balances()
                } else {
                    res is Ok && final(self).balances().dom() == old(self).balances().dom()
                        && final(self).balances()[key_of_pk(pk@)].owner@ == pk@
                        && final(self).balances()[key_of_pk(pk@)].value == k.value - amount
                        && forall|q: Seq<char>|
                        q != key_of_pk(pk@) ==> #[trigger] final(self).balances().get(q) == old(self).balances().get(q)
                },
            },
    {
        let xorname = xorname_from_pk(pk);
        let from_balance = match self.get_balance_from_xorname(&xorname) {
            Ok(b) => b,
            Err(e) => {
                return Err(e);
            },
        };
        if from_balance < amount {
            return Err(Error::NotEnoughBalance(coins_to_string(from_balance)));
        }
        let key = xorname_to_hex(&xorname);
        let owner = clone_bytes(pk);
        let ghost before = *self;
        table_insert(
            &mut self.fake_vault.coin_balances,
            key,
            SafeKey { owner, value: from_balance - amount },
        );
        Ok(())
    }

    /// Creates a balance owned by `new_balance_owner` with `amount` nano coins. When
    /// a paying key is given, the amount and one nano coin (the creation cost) are
    /// taken from its balance first; a missing or short paying balance fails the
    /// creation and leaves the balances as they were.
    pub fn create_balance(&mut self, from_pk: Option<&[u8]>, new_balance_owner: &[u8], amount: u64) -> (res:
        Result<XorName>)
        requires
            from_pk is Some ==> amount < u64::MAX,
        ensures
            old(self).wf() ==> final(self).wf(),
            final(self).fake_vault.txs == old(self).fake_vault.txs,
            final(self).fake_vault.published_seq_append_only == old(self).fake_vault.published_seq_append_only,
            final(self).fake_vault.mutable_data == old(self).fake_vault.mutable_data,
            final(self).fake_vault.published_immutable_data == old(self).fake_vault.published_immutable_data,
            ({
                let paid = match from_pk {
                    None => true,
                    Some(pk) => old(self).balances().contains_key(key_of_pk(pk@)) && old(self).balances()[key_of_pk(pk@)].value >= amount + 1,
                };
                &&& paid ==> (res matches Ok(x) && x.0@ == pk_xorname(new_balance_owner@)
                    && final(self).balances().contains_key(key_of_pk(new_balance_owner@))
                    && final(self).balances()[key_of_pk(new_balance_owner@)].value == amount
                    && final(self).balances()[key_of_pk(new_balance_owner@)].owner@ == new_balance_owner@)
                &&& !paid ==> res is Err && final(self).balances() == old(self).balances()
                &&& from_pk matches Some(pk) ==> (!old(self).balances().contains_key(key_of_pk(pk@)) ==> (
                    res matches Err(Error::ContentNotFound(m)) && m@ == "SafeKey data not found"@))
                &&& from_pk matches Some(pk) ==> (old(self).balances().contains_key(key_of_pk(pk@)) && old(
                    self).balances()[key_of_pk(pk@)].value < amount + 1 ==> res matches Err(
                    Error::NotEnoughBalance(_),
                ))
                &&& paid ==> forall|q: Seq<char>|
                    q != key_of_pk(new_balance_owner@) && from_key(from_pk) != Some(q) ==> #[trigger] final(self).balances().get(q) == old(self).balances().get(q)
                &&& paid ==> match from_pk {
                    Some(pk) => key_of_pk(pk@) != key_of_pk(new_balance_owner@) ==> {
                        &&& final(self).balances().contains_key(key_of_pk(pk@))
                        &&& final(self).balances()[key_of_pk(pk@)].value == old(self).balances()[key_of_pk(pk@)].value
                            - amount - 1
                    },
                    None => true,
                }
                &&& from_pk is None ==> final(self).balances() == old(self).balances().insert(
                    key_of_pk(new_balance_owner@),
                    final(self).balances()[key_of_pk(new_balance_owner@)],
                )
            }),
    {
        if let Some(pk) = from_pk {
            match self.substract_coins(pk, amount + 1) {
                Ok(()) => {},
                Err(e) => {
                    return Err(e);
                },
            }
        }
        let to_xorname = xorname_from_pk(new_balance_owner);
        let key = xorname_to_hex(&to_xorname);
        let ghost mid = self.balances();
        let ghost knew = key@;
        table_insert(
            &mut self.fake_vault.coin_balances,
            key,
            SafeKey { owner: clone_bytes(new_balance_owner), value: amount },
        );
        proof {
            assert forall|q: Seq<char>| q != knew && from_key(from_pk) != Some(q) implies #[trigger] self.balances().get(
                q,
            ) == old(self).balances().get(q) by {
                assert(self.balances().get(q) == mid.get(q));
                if from_pk is Some {
                    assert(mid.get(q) == old(self).balances().get(q));
                }
            }
            if let Some(pk) = from_pk {
                if key_of_pk(pk@) != knew {
                    assert(self.balances().get(key_of_pk(pk@)) == mid.get(key_of_pk(pk@)));
                }
            }
        }
        Ok(to_xorname)
    }

    /// Gives the key pair whose public key is `owner_pk` a balance of `amount` nano
    /// coins, in place of the one it had, if any.
    pub fn allocate_test_coins(&mut self, owner_pk: &[u8], amount: u64) -> (res: Result<XorName>)
        ensures
            old(self).wf() ==> final(self).wf(),
            res matches Ok(x) && x.0@ == pk_xorname(owner_pk@),
            final(self).balances().contains_key(key_of_pk(owner_pk@)),
            final(self).balances()[key_of_pk(owner_pk@)].value == amount,
            final(self).balances()[key_of_pk(owner_pk@)].owner@ == owner_pk@,
            final(self).balances() == old(self).balances().insert(
                key_of_pk(owner_pk@),
                final(self).balances()[key_of_pk(owner_pk@)],
            ),
            final(self).fake_vault.txs == old(self).fake_vault.txs,
            final(self).fake_vault.published_seq_append_only == old(self).fake_vault.published_seq_append_only,
            final(self).fake_vault.mutable_data == old(self).fake_vault.mutable_data,
            final(self).fake_vault.published_immutable_data == old(self).fake_vault.published_immutable_data,
    {
        let xorname = xorname_from_pk(owner_pk);
        let key = xorname_to_hex(&xorname);
        table_insert(
            &mut self.fake_vault.coin_balances,
            key,
            SafeKey { owner: clone_bytes(owner_pk), value: amount },
        );
        Ok(xorname)
    }

    /// The balance, in nano coins, of the key pair whose public key is `pk`.
    pub fn get_balance_from_sk(&self, pk: &[u8]) -> (res: Result<u64>)
        ensures
            match self.balances().get(key_of_pk(pk@)) {
                Some(k) => res == Ok::<u64, Error>(k.value),
                None => res matches Err(Error::ContentNotFound(m)) && m@ == "SafeKey data not found"@,
            },
    {
        let xorname = xorname_from_pk(pk);
        self.get_balance_from_xorname(&xorname)
    }
}


/// Why a transfer fails, if it does.
pub ghost enum TransferFailure {
    /// The paying key has no balance.
    NoSource,
    /// The paying balance, of this amount, is short of the amount transferred.
    SourceShort(u64),
    /// The destination has no balance.
    NoDestination,
    /// The destination balance would overflow.
    Overflow,
}

/// The balances after a transfer of `amount` from the balance under `from` (if
/// any) to the one under `to`, and why the transfer failed, if it did. The paying
/// balance is debited first, and stays debited when crediting then fails.
pub open spec fn transfer_values(
    values: Map<Seq<char>, u64>,
    from: Option<Seq<char>>,
    to: Seq<char>,
    amount: u64,
) -> (Map<Seq<char>, u64>, Option<TransferFailure>) {
    let debited: (Map<Seq<char>, u64>, Option<TransferFailure>) = match from {
        None => (values, None),
        Some(k) => if !values.contains_key(k) {
            (values, Some(TransferFailure::NoSource))
        } else if values[k] < amount {
            (values, Some(TransferFailure::SourceShort(values[k])))
        } else {
            (values.insert(k, (values[k] - amount) as u64), None)
        },
    };
    let v1 = debited.0;
    if debited.1 is Some {
        debited
    } else if !v1.contains_key(to) {
        (v1, Some(TransferFailure::NoDestination))
    } else if v1[to] + amount > u64::MAX {
        (v1, Some(TransferFailure::Overflow))
    } else {
        (v1.insert(to, (v1[to] + amount) as u64), None)
    }
}

/// The key of the paying public key, if any.
pub open spec fn from_key(from_pk: Option<&[u8]>) -> Option<Seq<char>> {
    match from_pk {
        Some(pk) => Some(key_of_pk(pk@)),
        None => None,
    }
}

/// The status recorded for a transfer of `amount`.
pub open spec fn transfer_status(amount: u64) -> Seq<char> {
    "Success("@ + coins_text(amount as nat) + ")"@
}

/// The message of the error for a destination balance that would overflow.
pub open spec fn overflow_message() -> Seq<char> {
    "Failed to credit destination due to overflow...maybe a millionaire's problem?!"@
}

/// A transfer of `amount` from the balance under `from` to the one under `to`
/// moves coins without creating or destroying any: the two balances sum to what
/// they summed to, and every other balance is unchanged.
pub proof fn lemma_transfer_conserves(values: Map<Seq<char>, u64>, from: Seq<char>, to: Seq<char>, amount: u64)
    requires
        from != to,
        transfer_values(values, Some(from), to, amount).1 is None,
    ensures
        ({
            let after = transfer_values(values, Some(from), to, amount).0;
            &&& after.dom() == values.dom()
            &&& after[from] + after[to] == values[from] + values[to]
            &&& after[from] == values[from] - amount
            &&& after[to] == values[to] + amount
            &&& forall|q: Seq<char>| q != from && q != to ==> #[trigger] after.get(q) == values.get(q)
        }),
{
    let after = transfer_values(values, Some(from), to, amount).0;
    assert(after.dom() =~= values.dom());
}

impl SafeAppFake {
    /// The amounts of the balances, by key.
    pub open spec fn balance_values(&self) -> Map<Seq<char>, u64> {
        self.balances().map_values(|k: SafeKey| k.value)
    }

    /// The owners of the balances, by key.
    pub open spec fn balance_owners(&self) -> Map<Seq<char>, Seq<u8>> {
        self.balances().map_values(|k: SafeKey| k.owner@)
    }

    /// Transfers `amount` nano coins to the balance of `to_xorname`, from the
    /// balance of the key pair whose public key is `from_pk` when given. A zero
    /// amount is refused. Otherwise the transfer is first recorded as a success
    /// among the transfers to the destination, under the id, and then the balances
    /// change as `transfer_values` says; a failure keeps the record and whatever
    /// debit was made.
    pub fn safecoin_transfer_to_xorname(
        &mut self,
        from_pk: Option<&[u8]>,
        to_xorname: XorName,
        tx_id: u64,
        amount: u64,
    ) -> (res: Result<Transaction>)
        ensures
            old(self).wf() ==> final(self).wf(),
            final(self).fake_vault.published_seq_append_only == old(self).fake_vault.published_seq_append_only,
            final(self).fake_vault.mutable_data == old(self).fake_vault.mutable_data,
            final(self).fake_vault.published_immutable_data == old(self).fake_vault.published_immutable_data,
            amount == 0 ==> (res matches Err(Error::InvalidAmount(m)) && m@ == coins_text(0)) && *final(self) == *old(self),
            amount != 0 ==> ({
                let to = key_of(to_xorname);
                let outcome = transfer_values(old(self).balance_values(), from_key(from_pk), to, amount);
                let recorded = if old(self).transfers().contains_key(to) {
                    old(self).transfers()[to]
                } else {
                    Map::empty()
                };
                &&& final(self).transfers() == old(self).transfers().insert(
                    to,
                    recorded.insert(decimal(tx_id as nat), transfer_status(amount)),
                )
                &&& final(self).balance_values() == outcome.0
                &&& match outcome.1 {
                    None => res == Ok::<Transaction, Error>(Transaction { id: tx_id, amount }),
                    Some(TransferFailure::NoSource) => res matches Err(Error::ContentNotFound(m)) && m@
                        == "SafeKey data not found"@,
                    Some(TransferFailure::SourceShort(b)) => res matches Err(Error::NotEnoughBalance(m))
                        && m@ == coins_text(b as nat),
                    Some(TransferFailure::NoDestination) => res matches Err(Error::ContentNotFound(m))
                        && m@ == "SafeKey data not found"@,
                    Some(TransferFailure::Overflow) => res matches Err(Error::Unexpected(m)) && m@
                        == overflow_message(),
                }
            }),
    {
        if amount == 0 {
            return Err(Error::InvalidAmount(coins_to_string(amount)));
        }
        let to_xorname_hex = xorname_to_hex(&to_xorname);
        let ghost to = to_xorname_hex@;
        let ghost old_tr = self.transfers();
        let mut txs_for_xorname: Vec<(String, String)> = match table_get(
            &self.fake_vault.txs,
            to_xorname_hex.as_str(),
        ) {
            Some(txs) => crate::nrs::clone_pairs(txs),
            None => Vec::new(),
        };
        let mut status = owned("Success(");
        let amount_text = coins_to_string(amount);
        push_str(&mut status, amount_text.as_str());
        push_str(&mut status, ")");
        let ghost recorded = pairs_view(txs_for_xorname@);
        let id_text = u64_to_decimal(tx_id);
        let ghost id_v = id_text@;
        let ghost status_v = status@;
        proof {
            if !old_tr.contains_key(to) {
                assert(recorded =~= Map::empty());
            }
        }
        pairs_insert(&mut txs_for_xorname, id_text, status);
        let ghost list_v = pairs_view(txs_for_xorname@);
        let ghost before_txs = self.fake_vault.txs@;
        table_insert(&mut self.fake_vault.txs, to_xorname_hex.clone(), txs_for_xorname);
        proof {
            assert(self.transfers() =~= old_tr.insert(to, list_v));
        }
        let ghost old_vals = self.balance_values();
        let ghost old_owners = self.balance_owners();
        if let Some(pk) = from_pk {
            let ghost before = self.balances();
            match self.substract_coins(pk, amount) {
                Ok(()) => {
                    proof {
                        let kp = key_of_pk(pk@);
                        assert(before.contains_key(kp));
                        assert forall|q: Seq<char>| q != kp implies #[trigger] self.balances().get(q) == before.get(q) by {}
                        assert forall|q: Seq<char>| #[trigger] self.balance_values().contains_key(q)
                            == old_vals.insert(kp, (old_vals[kp] - amount) as u64).contains_key(q) by {
                            assert(self.balances().get(q) == before.get(q) || q == kp);
                        }
                        assert forall|q: Seq<char>| self.balance_values().contains_key(q) implies #[trigger] self.balance_values()[q]
                            == old_vals.insert(kp, (old_vals[kp] - amount) as u64)[q] by {
                            if q != kp {
                                assert(self.balances().get(q) == before.get(q));
                            }
                        }
                        assert(self.balance_values() =~= old_vals.insert(
                            key_of_pk(pk@),
                            (old_vals[key_of_pk(pk@)] - amount) as u64,
                        ));
                    }
                },
                Err(e) => {
                    proof {
                        assert(self.balance_values() =~= old_vals);
                    }
                    return Err(e);
                },
            }
        }
        let ghost mid_vals = self.balance_values();
        let to_balance = match self.get_balance_from_xorname(&to_xorname) {
            Ok(b) => b,
            Err(e) => {
                return Err(e);
            },
        };
        if to_balance > u64::MAX - amount {
            return Err(
                Error::Unexpected(
                    owned(
                        "Failed to credit destination due to overflow...maybe a millionaire's problem?!",
                    ),
                ),
            );
        }
        let owner = match self.fetch_pk_from_xorname(&to_xorname) {
            Ok(o) => o,
            Err(e) => {
                return Err(e);
            },
        };
        let ghost before = self.balances();
        table_insert(
            &mut self.fake_vault.coin_balances,
            to_xorname_hex,
            SafeKey { owner, value: to_balance + amount },
        );
        proof {
            assert(self.balance_values() =~= mid_vals.insert(to, (to_balance + amount) as u64));
        }
        Ok(Transaction { id: tx_id, amount })
    }

    /// Transfers `amount` nano coins to the balance of the public key `to_pk` (see
    /// `safecoin_transfer_to_xorname`).
    pub fn safecoin_transfer_to_pk(
        &mut self,
        from_pk: Option<&[u8]>,
        to_pk: &[u8],
        tx_id: u64,
        amount: u64,
    ) -> (res: Result<Transaction>)
        ensures
            old(self).wf() ==> final(self).wf(),
            amount == 0 ==> (res matches Err(Error::InvalidAmount(m)) && m@ == coins_text(0)) && *final(self) == *old(self),
            amount != 0 ==> ({
                let outcome = transfer_values(
                    old(self).balance_values(),
                    from_key(from_pk),
                    key_of_pk(to_pk@),
                    amount,
                );
                &&& final(self).balance_values() == outcome.0
                &&& outcome.1 is None <==> res == Ok::<Transaction, Error>(Transaction { id: tx_id, amount })
            }),
    {
        let to_xorname = xorname_from_pk(to_pk);
        self.safecoin_transfer_to_xorname(from_pk, to_xorname, tx_id, amount)
    }

    /// The status of the transfer `tx_id` to the public key `pk`, among the
    /// transfers recorded for it.
    pub fn get_transaction(&self, tx_id: u64, pk: &[u8]) -> (res: Result<String>)
        requires
            self.transfers().contains_key(key_of_pk(pk@)),
        ensures
            ({
                let recorded = self.transfers()[key_of_pk(pk@)];
                if recorded.contains_key(decimal(tx_id as nat)) {
                    res matches Ok(s) && s@ == recorded[decimal(tx_id as nat)]
                } else {
                    res matches Err(Error::ContentNotFound(m)) && m@ == "Transaction not found with id '"@
                        + decimal(tx_id as nat) + "'"@
                }
            }),
    {
        let xorname = xorname_from_pk(pk);
        let key = xorname_to_hex(&xorname);
        let txs_for_xorname = match table_get(&self.fake_vault.txs, key.as_str()) {
            Some(t) => t,
            None => {
                return Err(Error::Unknown(String::new()));
            },
        };
        let id_text = u64_to_decimal(tx_id);
        match crate::nrs::pairs_get(txs_for_xorname, id_text.as_str()) {
            Some(state) => Ok(state.clone()),
            None => {
                let mut msg = owned("Transaction not found with id '");
                push_decimal(&mut msg, tx_id);
                push_str(&mut msg, "'");
                Err(Error::ContentNotFound(msg))
            },
        }
    }
}

/// Puts a field into a list of fields, in place of the value it had, if any.
fn pairs_insert(items: &mut Vec<(String, String)>, key: String, value: String)
    ensures
        pairs_view(final(items)@) == pairs_view(old(items)@).insert(key@, value@),
{
    let ghost k = key@;
    let ghost v = value@;
    let ghost before = items@;
    table_insert(items, key, value);
    proof {
        lemma_pairs_view_is_table(before);
        lemma_pairs_view_is_table(items@);
        assert(pairs_view(items@) =~= pairs_view(before).insert(k, v));
    }
}

proof fn lemma_pairs_view_is_table(items: Seq<(String, String)>)
    ensures
        pairs_view(items) == table_view(items).map_values(|s: String| s@),
    decreases items.len(),
{
    if items.len() > 0 {
        lemma_pairs_view_is_table(items.drop_last());
        assert(pairs_view(items) =~= table_view(items).map_values(|s: String| s@));
    }
}

/// The message of the error for a XoR name that holds no append-only data.
pub open spec fn no_append_only_message(x: XorName) -> Seq<char> {
    "Sequenced AppendOnlyData not found at Xor name: "@ + key_of(x)
}

/// The message of the error for a XoR name that holds no mutable data.
pub open spec fn no_mutable_data_message(x: XorName) -> Seq<char> {
    "Sequenced MutableData not found at Xor name: "@ + key_of(x)
}

/// The bytes of a range of some data: from `start` (or the beginning) to `end`
/// (or the end).
pub open spec fn data_range(data: Seq<u8>, range: Option<(Option<u64>, Option<u64>)>) -> Seq<u8> {
    match range {
        None => data,
        Some((start, end)) => data.subrange(
            match start {
                Some(s) => s as int,
                None => 0,
            },
            match end {
                Some(e) => e as int,
                None => data.len() as int,
            },
        ),
    }
}

/// Whether a range fits some data: its start is not past its end, nor its end past
/// the data's end.
pub open spec fn range_fits(data: Seq<u8>, range: Option<(Option<u64>, Option<u64>)>) -> bool {
    match range {
        None => true,
        Some((start, end)) => {
            let s: int = match start {
                Some(s) => s as int,
                None => 0,
            };
            let e: int = match end {
                Some(e) => e as int,
                None => data.len() as int,
            };
            s <= e <= data.len()
        },
    }
}

/// Whether a text is the lower-case hexadecimal text of some bytes.
pub open spec fn is_hex_text(s: Seq<char>) -> bool {
    s.len() % 2 == 0 && forall|i: int| 0 <= i < s.len() ==> #[trigger] crate::text::hex_value(s[i]) is Some
}

proof fn lemma_hex_digit_value(c: char)
    requires
        crate::text::hex_value(c) is Some,
    ensures
        crate::text::hex_digit(crate::text::hex_value(c)->0) == c,
        0 <= crate::text::hex_value(c)->0 < 16,
{
}

/// The value of a hexadecimal digit of either case.
pub open spec fn nibble(c: char) -> Option<u8> {
    if '0' <= c && c <= '9' {
        Some((c as int - '0' as int) as u8)
    } else if 'a' <= c && c <= 'f' {
        Some((c as int - 'a' as int + 10) as u8)
    } else if 'A' <= c && c <= 'F' {
        Some((c as int - 'A' as int + 10) as u8)
    } else {
        None
    }
}

/// The values of the hexadecimal digits of a text, in order; other characters
/// are skipped.
pub open spec fn nibbles(s: Seq<char>) -> Seq<u8>
    decreases s.len(),
{
    if s.len() == 0 {
        Seq::empty()
    } else {
        match nibble(s.last()) {
            Some(n) => nibbles(s.drop_last()).push(n),
            None => nibbles(s.drop_last()),
        }
    }
}

/// The bytes made of consecutive pairs of nibbles, high nibble first; a last
/// nibble without a pair is dropped.
pub open spec fn pair_nibbles(n: Seq<u8>) -> Seq<u8>
    decreases n.len(),
{
    if n.len() < 2 {
        Seq::empty()
    } else if n.len() % 2 == 1 {
        pair_nibbles(n.drop_last())
    } else {
        pair_nibbles(n.take(n.len() - 2)).push((n[n.len() - 2] * 16 + n[n.len() - 1]) as u8)
    }
}

/// The bytes that a hexadecimal text stands for (see `parse_hex`).
pub open spec fn hex_bytes(s: Seq<char>) -> Seq<u8> {
    pair_nibbles(nibbles(s))
}

proof fn lemma_nibble_bound(c: char)
    ensures
        nibble(c) matches Some(n) ==> n < 16,
{
}

/// The bytes written by a hexadecimal text: its digits (of either case) taken in
/// pairs, high nibble first. Other characters are skipped, and a last digit
/// without a pair is dropped.
pub fn parse_hex(hex_str: &str) -> (res: Vec<u8>)
    ensures
        res@ == hex_bytes(hex_str@),
{
    let chars = crate::text::str_to_chars(hex_str);
    let mut nib: Vec<u8> = Vec::new();
    let mut i: usize = 0;
    while i < chars.len()
        invariant
            chars@ == hex_str@,
            i <= chars@.len(),
            nib@ == nibbles(hex_str@.take(i as int)),
            forall|k: int| 0 <= k < nib@.len() ==> #[trigger] nib@[k] < 16,
        decreases chars@.len() - i,
    {
        let c = chars[i];
        proof {
            assert(hex_str@.take(i + 1).drop_last() =~= hex_str@.take(i as int));
            assert(hex_str@.take(i + 1).last() == c);
            lemma_nibble_bound(c);
        }
        if '0' <= c && c <= '9' {
            nib.push((c as u32 - '0' as u32) as u8);
        } else if 'a' <= c && c <= 'f' {
            nib.push((c as u32 - 'a' as u32 + 10) as u8);
        } else if 'A' <= c && c <= 'F' {
            nib.push((c as u32 - 'A' as u32 + 10) as u8);
        }
        i = i + 1;
    }
    proof {
        assert(hex_str@.take(hex_str@.len() as int) =~= hex_str@);
    }
    let mut res: Vec<u8> = Vec::new();
    let mut j: usize = 0;
    while j + 1 < nib.len()
        invariant
            j % 2 == 0,
            j <= nib@.len(),
            res@ == pair_nibbles(nib@.take(j as int)),
            forall|k: int| 0 <= k < nib@.len() ==> #[trigger] nib@[k] < 16,
        decreases nib@.len() - j,
    {
        let h = nib[j];
        let l = nib[j + 1];
        proof {
            let t = nib@.take(j + 2);
            assert(t.take(t.len() - 2) =~= nib@.take(j as int));
            assert(t[t.len() - 2] == h);
            assert(t[t.len() - 1] == l);
        }
        res.push(h * 16 + l);
        j = j + 2;
    }
    proof {
        if j == nib@.len() {
            assert(nib@.take(j as int) =~= nib@);
        } else {
            assert(nib@.drop_last() =~= nib@.take(j as int));
        }
    }
    res
}

/// The nibbles of some bytes, high nibble first.
pub open spec fn nibbles_of(b: Seq<u8>) -> Seq<u8>
    decreases b.len(),
{
    if b.len() == 0 {
        Seq::empty()
    } else {
        nibbles_of(b.drop_last()).push((b.last() / 16) as u8).push((b.last() % 16) as u8)
    }
}

proof fn lemma_nibble_of_hex_digit(k: int)
    requires
        0 <= k < 16,
    ensures
        nibble(crate::text::hex_digit(k)) == Some(k as u8),
{
}

proof fn lemma_nibbles_hex_of(b: Seq<u8>)
    ensures
        nibbles(hex_of(b)) == nibbles_of(b),
        nibbles_of(b).len() == 2 * b.len(),
    decreases b.len(),
{
    if b.len() > 0 {
        lemma_nibbles_hex_of(b.drop_last());
        let x = b.last();
        let h = hex_of(b.drop_last());
        let d1 = crate::text::hex_digit(x as int / 16);
        let d2 = crate::text::hex_digit(x as int % 16);
        lemma_nibble_of_hex_digit(x as int / 16);
        lemma_nibble_of_hex_digit(x as int % 16);
        let s1 = h.push(d1);
        let s2 = s1.push(d2);
        assert(hex_of(b) == s2);
        assert(s2.drop_last() =~= s1);
        assert(s1.drop_last() =~= h);
        assert(s2.last() == d2);
        assert(s1.last() == d1);
        assert(nibbles(s2) == nibbles(s1).push((x as int % 16) as u8));
        assert(nibbles(s1) == nibbles(h).push((x as int / 16) as u8));
        assert(nibbles_of(b) == nibbles_of(b.drop_last()).push((x / 16) as u8).push((x % 16) as u8));
    }
}

proof fn lemma_pair_nibbles_of(b: Seq<u8>)
    ensures
        pair_nibbles(nibbles_of(b)) == b,
    decreases b.len(),
{
    if b.len() > 0 {
        lemma_nibbles_hex_of(b);
        lemma_nibbles_hex_of(b.drop_last());
        lemma_pair_nibbles_of(b.drop_last());
        let n = nibbles_of(b);
        let x = b.last();
        assert(n.take(n.len() - 2) =~= nibbles_of(b.drop_last()));
        assert(n[n.len() - 2] == (x / 16) as u8);
        assert(n[n.len() - 1] == (x % 16) as u8);
        assert(((x / 16) as u8 * 16 + (x % 16) as u8) as u8 == x);
        assert(b =~= b.drop_last().push(x));
    }
}

/// Reading back the hexadecimal text of some bytes gives the bytes.
pub proof fn lemma_parse_hex_roundtrip(b: Seq<u8>)
    ensures
        hex_bytes(hex_of(b)) == b,
{
    lemma_nibbles_hex_of(b);
    lemma_pair_nibbles_of(b);
}

/// The bytes that a lower-case hexadecimal text stands for.
fn decode_hex_text(hex_str: &str) -> (res: Vec<u8>)
    requires
        is_hex_text(hex_str@),
    ensures
        hex_of(res@) == hex_str@,
{
    let chars = crate::text::str_to_chars(hex_str);
    let mut res: Vec<u8> = Vec::new();
    let mut i: usize = 0;
    while i + 1 < chars.len()
        invariant
            chars@ == hex_str@,
            is_hex_text(hex_str@),
            i % 2 == 0,
            i <= chars@.len(),
            hex_of(res@) == hex_str@.take(i as int),
        decreases chars@.len() - i,
    {
        let c1 = chars[i];
        let c2 = chars[i + 1];
        proof {
            assert(crate::text::hex_value(hex_str@[i as int]) is Some);
            assert(crate::text::hex_value(hex_str@[i + 1]) is Some);
            lemma_hex_digit_value(c1);
            lemma_hex_digit_value(c2);
        }
        let v1 = hex_char_value(c1);
        let v2 = hex_char_value(c2);
        let b: u8 = v1 * 16 + v2;
        let ghost before = res@;
        res.push(b);
        proof {
            assert(res@.drop_last() =~= before);
            assert(b as int / 16 == v1 as int);
            assert(b as int % 16 == v2 as int);
            assert(hex_str@.take(i + 2) =~= hex_str@.take(i as int).push(c1).push(c2));
        }
        i = i + 2;
    }
    proof {
        assert(hex_str@.take(hex_str@.len() as int) =~= hex_str@);
    }
    res
}

fn hex_char_value(c: char) -> (res: u8)
    requires
        crate::text::hex_value(c) is Some,
    ensures
        res as int == crate::text::hex_value(c)->0,
{
    if '0' <= c && c <= '9' {
        (c as u32 - '0' as u32) as u8
    } else {
        (c as u32 - 'a' as u32 + 10) as u8
    }
}

impl SafeAppFake {
    /// Publishes immutable data under a XoR name made from the SHA3-256 digest of
    /// its contents (a name unique to the contents, as this vault does not
    /// self-encrypt); a dry run stores nothing.
    pub fn files_put_published_immutable(&mut self, data: &[u8], dry_run: bool) -> (res: Result<XorName>)
        ensures
            old(self).wf() ==> final(self).wf(),
            res matches Ok(x) && x.0@ == sha3_256_digest(data@) && final(self).immutable_data() == (if dry_run {
                old(self).immutable_data()
            } else {
                old(self).immutable_data().insert(key_of(x), data@)
            }),
            final(self).balances() == old(self).balances(),
            final(self).transfers() == old(self).transfers(),
            final(self).append_only_data() == old(self).append_only_data(),
            final(self).mutable_data() == old(self).mutable_data(),
    {
        let xorname = XorName(sha3_256(data));
        if !dry_run {
            let ghost before = self.fake_vault.published_immutable_data@;
            let key = xorname_to_hex(&xorname);
            let ghost k = key@;
            table_insert(&mut self.fake_vault.published_immutable_data, key, clone_bytes(data));
            proof {
                assert(self.immutable_data() =~= table_view(before).map_values(|v: Vec<u8>| v@).insert(k, data@));
            }
        }
        Ok(xorname)
    }

    /// The immutable data published under a XoR name, or the range of it asked for.
    pub fn files_get_published_immutable(&self, xorname: XorName, range: Option<(Option<u64>, Option<u64>)>) -> (res:
        Result<Vec<u8>>)
        requires
            self.immutable_data().contains_key(key_of(xorname)) ==> range_fits(
                self.immutable_data()[key_of(xorname)],
                range,
            ),
        ensures
            match self.immutable_data().get(key_of(xorname)) {
                None => res matches Err(Error::NetDataError(m)) && m@ == "No ImmutableData found at this address"@,
                Some(d) => res matches Ok(r) && r@ == data_range(d, range),
            },
    {
        let key = xorname_to_hex(&xorname);
        let data = match table_get(&self.fake_vault.published_immutable_data, key.as_str()) {
            Some(d) => d,
            None => {
                return Err(Error::NetDataError(owned("No ImmutableData found at this address")));
            },
        };
        match range {
            None => Ok(clone_bytes(data.as_slice())),
            Some((start, end)) => {
                let s: u64 = match start {
                    Some(v) => v,
                    None => 0,
                };
                let e: u64 = match end {
                    Some(v) => v,
                    None => data.len() as u64,
                };
                proof {
                    assert(self.immutable_data()[key@] == data@);
                    assert(s <= e && e <= data@.len());
                }
                let n = data.len();
                assert(e <= n);
                let mut out: Vec<u8> = Vec::new();
                let mut i: usize = s as usize;
                assert(out@ =~= data@.subrange(s as int, i as int));
                while i < e as usize
                    invariant
                        s as int <= i <= e as int,
                        e <= data@.len(),
                        out@ == data@.subrange(s as int, i as int),
                    decreases e - i,
                {
                    out.push(data[i]);
                    proof {
                        assert(out@ =~= data@.subrange(s as int, i + 1));
                    }
                    i = i + 1;
                }
                Ok(out)
            },
        }
    }

    /// Stores append-only data under a XoR name, the one given or a random one, in
    /// place of any data stored there.
    pub fn put_seq_append_only_data(
        &mut self,
        data: Vec<AppendOnlyDataRawData>,
        name: Option<XorName>,
        _tag: u64,
        _permissions: Option<String>,
    ) -> (res: Result<XorName>)
        ensures
            old(self).wf() ==> final(self).wf(),
            res matches Ok(x) && (name matches Some(n) ==> x == n) && final(self).append_only_data() == old(
            self).append_only_data().insert(key_of(x), ad_view(data@)),
            final(self).balances() == old(self).balances(),
            final(self).transfers() == old(self).transfers(),
            final(self).immutable_data() == old(self).immutable_data(),
            final(self).mutable_data() == old(self).mutable_data(),
    {
        let xorname = match name {
            Some(n) => n,
            None => create_random_xorname(),
        };
        let key = xorname_to_hex(&xorname);
        let ghost k = key@;
        let ghost dv = ad_view(data@);
        let ghost before = self.fake_vault.published_seq_append_only@;
        table_insert(&mut self.fake_vault.published_seq_append_only, key, data);
        proof {
            assert(self.append_only_data() =~= old(self).append_only_data().insert(k, dv));
        }
        Ok(xorname)
    }

    /// Appends entries to the append-only data under a XoR name, and returns the
    /// version of the last entry (the number of entries less one).
    pub fn append_seq_append_only_data(
        &mut self,
        data: Vec<AppendOnlyDataRawData>,
        _new_version: u64,
        name: XorName,
        _tag: u64,
    ) -> (res: Result<u64>)
        requires
            old(self).append_only_data().contains_key(key_of(name)) ==> old(
                self).append_only_data()[key_of(name)].len() + data@.len() >= 1,
            old(self).append_only_data().contains_key(key_of(name)) ==> old(
                self).append_only_data()[key_of(name)].len() + data@.len() <= usize::MAX,
        ensures
            old(self).wf() ==> final(self).wf(),
            final(self).balances() == old(self).balances(),
            final(self).transfers() == old(self).transfers(),
            final(self).immutable_data() == old(self).immutable_data(),
            final(self).mutable_data() == old(self).mutable_data(),
            match old(self).append_only_data().get(key_of(name)) {
                None => (res matches Err(Error::ContentNotFound(m)) && m@ == no_append_only_message(name))
                    && final(self).append_only_data() == old(self).append_only_data(),
                Some(d) => res == Ok::<u64, Error>((d.len() + data@.len() - 1) as u64)
                    && final(self).append_only_data() == old(self).append_only_data().insert(
                    key_of(name),
                    d + ad_view(data@),
                ),
            },
    {
        let xorname_hex = xorname_to_hex(&name);
        let mut seq_append_only = match table_get(
            &self.fake_vault.published_seq_append_only,
            xorname_hex.as_str(),
        ) {
            Some(d) => clone_entries(d),
            None => {
                let mut msg = owned("Sequenced AppendOnlyData not found at Xor name: ");
                push_str(&mut msg, xorname_hex.as_str());
                return Err(Error::ContentNotFound(msg));
            },
        };
        let ghost start = ad_view(seq_append_only@);
        let mut i: usize = 0;
        while i < data.len()
            invariant
                i <= data@.len(),
                start.len() + data@.len() <= usize::MAX,
                ad_view(seq_append_only@) == start + ad_view(data@.take(i as int)),
                seq_append_only@.len() == start.len() + i,
            decreases data@.len() - i,
        {
            let ghost before = seq_append_only@;
            seq_append_only.push(clone_entry(&data[i]));
            proof {
                assert forall|j: int| 0 <= j < seq_append_only@.len() implies ad_view(seq_append_only@)[j]
                    == (start + ad_view(data@.take(i + 1)))[j] by {
                    if j < before.len() {
                        assert(seq_append_only@[j] == before[j]);
                        assert(ad_view(before)[j] == (start + ad_view(data@.take(i as int)))[j]);
                    }
                }
                assert(ad_view(seq_append_only@) =~= start + ad_view(data@.take(i + 1)));
            }
            i = i + 1;
        }
        proof {
            assert(data@.take(data@.len() as int) =~= data@);
        }
        let len = seq_append_only.len();
        let ghost k = xorname_hex@;
        let ghost total = ad_view(seq_append_only@);
        table_insert(&mut self.fake_vault.published_seq_append_only, xorname_hex, seq_append_only);
        proof {
            assert(self.append_only_data() =~= old(self).append_only_data().insert(k, total));
        }
        Ok((len - 1) as u64)
    }

    /// The last entry of the append-only data under a XoR name, with its version.
    pub fn get_latest_seq_append_only_data(&self, name: XorName, _tag: u64) -> (res: Result<
        (u64, AppendOnlyDataRawData),
    >)
        ensures
            match self.append_only_data().get(key_of(name)) {
                None => res matches Err(Error::ContentNotFound(m)) && m@ == no_append_only_message(name),
                Some(d) => if d.len() == 0 {
                    res matches Err(Error::EmptyContent(m)) && m@ == "Empty Sequenced AppendOnlyData found at Xor name "@
                        + key_of(name)
                } else {
                    res matches Ok((v, e)) && v == d.len() - 1 && (e.0@, e.1@) == d.last()
                },
            },
    {
        let xorname_hex = xorname_to_hex(&name);
        match table_get(&self.fake_vault.published_seq_append_only, xorname_hex.as_str()) {
            Some(d) => {
                if d.len() == 0 {
                    let mut msg = owned("Empty Sequenced AppendOnlyData found at Xor name ");
                    push_str(&mut msg, xorname_hex.as_str());
                    return Err(Error::EmptyContent(msg));
                }
                let latest_index = d.len() - 1;
                let e = clone_entry(&d[latest_index]);
                Ok((latest_index as u64, e))
            },
            None => {
                let mut msg = owned("Sequenced AppendOnlyData not found at Xor name: ");
                push_str(&mut msg, xorname_hex.as_str());
                Err(Error::ContentNotFound(msg))
            },
        }
    }

    /// The version of the last entry of the append-only data under a XoR name.
    pub fn get_current_seq_append_only_data_version(&self, name: XorName, _tag: u64) -> (res: Result<u64>)
        requires
            self.append_only_data().contains_key(key_of(name)) ==> self.append_only_data()[key_of(
                name,
            )].len() >= 1,
        ensures
            match self.append_only_data().get(key_of(name)) {
                None => res matches Err(Error::ContentNotFound(m)) && m@ == no_append_only_message(name),
                Some(d) => res == Ok::<u64, Error>((d.len() - 1) as u64),
            },
    {
        let xorname_hex = xorname_to_hex(&name);
        match table_get(&self.fake_vault.published_seq_append_only, xorname_hex.as_str()) {
            Some(d) => Ok((d.len() - 1) as u64),
            None => {
                let mut msg = owned("Sequenced AppendOnlyData not found at Xor name: ");
                push_str(&mut msg, xorname_hex.as_str());
                Err(Error::ContentNotFound(msg))
            },
        }
    }

    /// The entry of a given version of the append-only data under a XoR name.
    pub fn get_seq_append_only_data(&self, name: XorName, _tag: u64, version: u64) -> (res: Result<
        AppendOnlyDataRawData,
    >)
        ensures
            match self.append_only_data().get(key_of(name)) {
                None => res matches Err(Error::ContentNotFound(m)) && m@ == no_append_only_message(name),
                Some(d) => if version >= d.len() {
                    res matches Err(Error::VersionNotFound(m)) && m@ == "Invalid version ("@ + decimal(
                        version as nat,
                    ) + ") for Sequenced AppendOnlyData found at Xor name "@ + xorname_short(name)
                } else {
                    res matches Ok(e) && (e.0@, e.1@) == d[version as int]
                },
            },
    {
        let xorname_hex = xorname_to_hex(&name);
        match table_get(&self.fake_vault.published_seq_append_only, xorname_hex.as_str()) {
            Some(d) => {
                if version >= d.len() as u64 {
                    let mut msg = owned("Invalid version (");
                    push_decimal(&mut msg, version);
                    push_str(&mut msg, ") for Sequenced AppendOnlyData found at Xor name ");
                    let short = crate::text::bytes_to_hex(&name.0[0..3]);
                    push_str(&mut msg, short.as_str());
                    push_str(&mut msg, "..");
                    Err(Error::VersionNotFound(msg))
                } else {
                    Ok(clone_entry(&d[version as usize]))
                }
            },
            None => {
                let mut msg = owned("Sequenced AppendOnlyData not found at Xor name: ");
                push_str(&mut msg, xorname_hex.as_str());
                Err(Error::ContentNotFound(msg))
            },
        }
    }
}

/// Entries of mutable data with their keys as bytes, viewed by the hex text of
/// their keys (the last occurrence of a key wins).
pub open spec fn byte_entries_view(v: Seq<(Vec<u8>, MDataSeqValue)>) -> Map<Seq<char>, (Seq<u8>, u64)>
    decreases v.len(),
{
    if v.len() == 0 {
        Map::empty()
    } else {
        byte_entries_view(v.drop_last()).insert(hex_of(v.last().0@), (v.last().1.data@, v.last().1.version))
    }
}

/// Whether every key of the entries of mutable data is a hex text.
pub open spec fn keys_are_hex(m: Seq<(String, MDataSeqValue)>) -> bool {
    forall|i: int| 0 <= i < m.len() ==> is_hex_text(#[trigger] m[i].0@)
}

impl SafeAppFake {
    /// Creates mutable data under a XoR name, the one given or a random one; data
    /// already there is kept.
    pub fn put_seq_mutable_data(&mut self, name: Option<XorName>, _tag: u64, _permissions: Option<String>) -> (res:
        Result<XorName>)
        ensures
            old(self).wf() ==> final(self).wf(),
            res matches Ok(x) && (name matches Some(n) ==> x == n) && final(self).mutable_data() == old(
            self).mutable_data().insert(
                key_of(x),
                if old(self).mutable_data().contains_key(key_of(x)) {
                    old(self).mutable_data()[key_of(x)]
                } else {
                    Map::empty()
                },
            ),
            final(self).balances() == old(self).balances(),
            final(self).transfers() == old(self).transfers(),
            final(self).immutable_data() == old(self).immutable_data(),
            final(self).append_only_data() == old(self).append_only_data(),
    {
        let xorname = match name {
            Some(n) => n,
            None => create_random_xorname(),
        };
        let key = xorname_to_hex(&xorname);
        let seq_md = match table_get(&self.fake_vault.mutable_data, key.as_str()) {
            Some(m) => clone_mdata(m),
            None => Vec::new(),
        };
        let ghost k = key@;
        let ghost mv = mdata_view(seq_md@);
        proof {
            if !old(self).mutable_data().contains_key(k) {
                assert(mv =~= Map::empty());
            }
        }
        table_insert(&mut self.fake_vault.mutable_data, key, seq_md);
        proof {
            assert(self.mutable_data() =~= old(self).mutable_data().insert(k, mv));
        }
        Ok(xorname)
    }

    /// Puts a value, at version 0, under a key of the mutable data under a XoR name.
    pub fn seq_mutable_data_insert(&mut self, name: XorName, _tag: u64, key: &[u8], value: &[u8]) -> (res: Result<
        (),
    >)
        ensures
            old(self).wf() ==> final(self).wf(),
            final(self).balances() == old(self).balances(),
            final(self).transfers() == old(self).transfers(),
            final(self).immutable_data() == old(self).immutable_data(),
            final(self).append_only_data() == old(self).append_only_data(),
            match old(self).mutable_data().get(key_of(name)) {
                None => (res matches Err(Error::ContentNotFound(m)) && m@ == no_mutable_data_message(name))
                    && final(self).mutable_data() == old(self).mutable_data(),
                Some(entries) => res is Ok && final(self).mutable_data() == old(self).mutable_data().insert(
                    key_of(name),
                    entries.insert(hex_of(key@), (value@, 0u64)),
                ),
            },
    {
        let xorname_hex = xorname_to_hex(&name);
        let mut data = match table_get(&self.fake_vault.mutable_data, xorname_hex.as_str()) {
            Some(m) => clone_mdata(m),
            None => {
                let mut msg = owned("Sequenced MutableData not found at Xor name: ");
                push_str(&mut msg, xorname_hex.as_str());
                return Err(Error::ContentNotFound(msg));
            },
        };
        let key_hex = vec_to_hex(clone_bytes(key));
        let ghost kh = key_hex@;
        let ghost before = data@;
        table_insert(&mut data, key_hex, MDataSeqValue { data: clone_bytes(value), version: 0 });
        let ghost entries_v = mdata_view(data@);
        proof {
            assert(entries_v =~= mdata_view(before).insert(kh, (value@, 0u64)));
        }
        let ghost k = xorname_hex@;
        table_insert(&mut self.fake_vault.mutable_data, xorname_hex, data);
        proof {
            assert(self.mutable_data() =~= old(self).mutable_data().insert(k, entries_v));
        }
        Ok(())
    }

    /// The value under a key of the mutable data under a XoR name.
    pub fn seq_mutable_data_get_value(&self, name: XorName, _tag: u64, key: &[u8]) -> (res: Result<MDataSeqValue>)
        ensures
            match self.mutable_data().get(key_of(name)) {
                None => res matches Err(Error::ContentNotFound(m)) && m@ == no_mutable_data_message(name),
                Some(entries) => match entries.get(hex_of(key@)) {
                    None => res matches Err(Error::EntryNotFound(m)) && m@
                        == "Entry not found in Sequenced MutableData found at Xor name: "@ + key_of(name),
                    Some(v) => res matches Ok(r) && (r.data@, r.version) == v,
                },
            },
    {
        let xorname_hex = xorname_to_hex(&name);
        let entries = match table_get(&self.fake_vault.mutable_data, xorname_hex.as_str()) {
            Some(m) => m,
            None => {
                let mut msg = owned("Sequenced MutableData not found at Xor name: ");
                push_str(&mut msg, xorname_hex.as_str());
                return Err(Error::ContentNotFound(msg));
            },
        };
        let key_hex = vec_to_hex(clone_bytes(key));
        match table_get(entries, key_hex.as_str()) {
            Some(v) => Ok(MDataSeqValue { data: clone_bytes(v.data.as_slice()), version: v.version }),
            None => {
                let mut msg = owned("Entry not found in Sequenced MutableData found at Xor name: ");
                push_str(&mut msg, xorname_hex.as_str());
                Err(Error::EntryNotFound(msg))
            },
        }
    }

    /// The entries of the mutable data under a XoR name, with their keys as bytes.
    pub fn list_seq_mdata_entries(&self, name: XorName, _tag: u64) -> (res: Result<Vec<(Vec<u8>, MDataSeqValue)>>)
        requires
            forall|i: int|
                0 <= i < self.fake_vault.mutable_data@.len() ==> keys_are_hex(
                    #[trigger] self.fake_vault.mutable_data@[i].1@,
                ),
        ensures
            match self.mutable_data().get(key_of(name)) {
                None => res matches Err(Error::ContentNotFound(m)) && m@ == no_mutable_data_message(name),
                Some(entries) => res matches Ok(r) && byte_entries_view(r@) == entries,
            },
    {
        let xorname_hex = xorname_to_hex(&name);
        let idx = match crate::table::table_index(&self.fake_vault.mutable_data, xorname_hex.as_str()) {
            Some(i) => i,
            None => {
                let mut msg = owned("Sequenced MutableData not found at Xor name: ");
                push_str(&mut msg, xorname_hex.as_str());
                return Err(Error::ContentNotFound(msg));
            },
        };
        let entries = &self.fake_vault.mutable_data[idx].1;
        proof {
            assert(keys_are_hex(self.fake_vault.mutable_data@[idx as int].1@));
        }
        let mut res: Vec<(Vec<u8>, MDataSeqValue)> = Vec::new();
        let mut i: usize = 0;
        proof {
            assert(byte_entries_view(res@) =~= mdata_view(entries@.take(0)));
        }
        while i < entries.len()
            invariant
                i <= entries@.len(),
                keys_are_hex(entries@),
                byte_entries_view(res@) == mdata_view(entries@.take(i as int)),
            decreases entries@.len() - i,
        {
            proof {
                assert(is_hex_text(entries@[i as int].0@));
            }
            let k = decode_hex_text(entries[i].0.as_str());
            let v = MDataSeqValue { data: clone_bytes(entries[i].1.data.as_slice()), version: entries[i].1.version };
            let ghost before = res@;
            res.push((k, v));
            proof {
                let t = entries@.take(i + 1);
                assert(t.drop_last() =~= entries@.take(i as int));
                assert(t.last() == entries@[i as int]);
                assert(res@.drop_last() =~= before);
                assert(byte_entries_view(res@) =~= mdata_view(entries@.take(i + 1)));
            }
            i = i + 1;
        }
        proof {
            assert(entries@.take(entries@.len() as int) =~= entries@);
        }
        Ok(res)
    }

    /// Puts a new value under a key of the mutable data under a XoR name (the
    /// version given is not checked).
    pub fn seq_mutable_data_update(&mut self, name: XorName, tag: u64, key: &[u8], value: &[u8], _version: u64) -> (res:
        Result<()>)
        ensures
            old(self).wf() ==> final(self).wf(),
            final(self).balances() == old(self).balances(),
            final(self).transfers() == old(self).transfers(),
            final(self).immutable_data() == old(self).immutable_data(),
            final(self).append_only_data() == old(self).append_only_data(),
            match old(self).mutable_data().get(key_of(name)) {
                None => (res matches Err(Error::ContentNotFound(m)) && m@ == no_mutable_data_message(name))
                    && final(self).mutable_data() == old(self).mutable_data(),
                Some(entries) => res is Ok && final(self).mutable_data() == old(self).mutable_data().insert(
                    key_of(name),
                    entries.insert(hex_of(key@), (value@, 0u64)),
                ),
            },
    {
        let _ = self.seq_mutable_data_get_value(name, tag, key);
        self.seq_mutable_data_insert(name, tag, key, value)
    }
}

/// Reading published immutable data gives back what was published under its XoR
/// name, and publishing leaves the data under other names as it was.
pub proof fn lemma_immutable_read_after_write(
    before: Map<Seq<char>, Seq<u8>>,
    after: Map<Seq<char>, Seq<u8>>,
    x: XorName,
    data: Seq<u8>,
)
    requires
        after == before.insert(key_of(x), data),
    ensures
        after.get(key_of(x)) == Some(data),
        forall|k: Seq<char>| k != key_of(x) ==> #[trigger] after.get(k) == before.get(k),
{
}

/// After appending entries to append-only data, its latest entry is the last one
/// appended, at the version that counts every entry before it.
pub proof fn lemma_append_then_latest(
    before: Map<Seq<char>, Seq<(Seq<u8>, Seq<u8>)>>,
    after: Map<Seq<char>, Seq<(Seq<u8>, Seq<u8>)>>,
    x: XorName,
    appended: Seq<(Seq<u8>, Seq<u8>)>,
)
    requires
        before.contains_key(key_of(x)),
        appended.len() > 0,
        after == before.insert(key_of(x), before[key_of(x)] + appended),
    ensures
        after[key_of(x)].len() - 1 == before[key_of(x)].len() + appended.len() - 1,
        after[key_of(x)].last() == appended.last(),
        forall|i: int| 0 <= i < before[key_of(x)].len() ==> #[trigger] after[key_of(x)][i] == before[key_of(x)][i],
{
}

/// After putting a value under a key of mutable data, reading the key gives the
/// value, at version 0.
pub proof fn lemma_mutable_read_after_write(
    before: Map<Seq<char>, Map<Seq<char>, (Seq<u8>, u64)>>,
    after: Map<Seq<char>, Map<Seq<char>, (Seq<u8>, u64)>>,
    x: XorName,
    key: Seq<u8>,
    value: Seq<u8>,
)
    requires
        before.contains_key(key_of(x)),
        after == before.insert(key_of(x), before[key_of(x)].insert(hex_of(key), (value, 0u64))),
    ensures
        after[key_of(x)].get(hex_of(key)) == Some((value, 0u64)),
{
}
/// After a transfer of a non-zero amount to the key of `pk` under an id, reading
/// that transaction for `pk` finds it: its status is recorded under the id.
pub proof fn lemma_transfer_then_transaction(
    before: Map<Seq<char>, Map<Seq<char>, Seq<char>>>,
    pk: Seq<u8>,
    tx_id: u64,
    amount: u64,
)
    ensures
        ({
            let to = key_of_pk(pk);
            let recorded = if before.contains_key(to) {
                before[to]
            } else {
                Map::empty()
            };
            let after = before.insert(to, recorded.insert(decimal(tx_id as nat), transfer_status(amount)));
            &&& after.contains_key(to)
            &&& after[to].contains_key(decimal(tx_id as nat))
            &&& after[to][decimal(tx_id as nat)] == transfer_status(amount)
        }),
{
}

/// A transfer between two different keys goes through exactly when the source
/// holds the amount, the destination exists and does not overflow: the source
/// loses the amount and the destination gains it.
pub proof fn lemma_transfer_succeeds(values: Map<Seq<char>, u64>, from: Seq<char>, to: Seq<char>, amount: u64)
    requires
        from != to,
        values.contains_key(from),
        values.contains_key(to),
        values[from] >= amount,
        values[to] + amount <= u64::MAX,
    ensures
        transfer_values(values, Some(from), to, amount).1 is None,
        transfer_values(values, Some(from), to, amount).0[from] == values[from] - amount,
        transfer_values(values, Some(from), to, amount).0[to] == values[to] + amount,
{
    lemma_transfer_conserves(values, from, to, amount);
}

/// A transfer from a source that holds less than the amount fails as short, and
/// leaves every balance as it was.
pub proof fn lemma_transfer_short_source(values: Map<Seq<char>, u64>, from: Seq<char>, to: Seq<char>, amount: u64)
    requires
        values.contains_key(from),
        values[from] < amount,
    ensures
        transfer_values(values, Some(from), to, amount).1 == Some(TransferFailure::SourceShort(values[from])),
        transfer_values(values, Some(from), to, amount).0 == values,
{
}


/// A range with a start and no end gives the data from the start to the data's
/// end: as many bytes as lie after the start, ending with the data's last byte.
pub proof fn lemma_range_to_end(data: Seq<u8>, start: u64)
    requires
        start <= data.len(),
    ensures
        data_range(data, Some((Some(start), None))) == data.skip(start as int),
        data_range(data, Some((Some(start), None))).len() == data.len() - start,
        start < data.len() ==> data_range(data, Some((Some(start), None))).last() == data.last(),
{
    assert(data.subrange(start as int, data.len() as int) =~= data.skip(start as int));
}

/// The range up to a point and the range from that point on make up the data; no
/// range gives all of it.
pub proof fn lemma_ranges_split_data(data: Seq<u8>, k: u64)
    requires
        k <= data.len(),
    ensures
        data_range(data, Some((None, Some(k)))) + data_range(data, Some((Some(k), None))) == data,
        data_range(data, None) == data,
        data_range(data, Some((None, None))) == data,
{
    assert(data.subrange(0, k as int) + data.subrange(k as int, data.len() as int) =~= data);
    assert(data.subrange(0, data.len() as int) =~= data);
}


/// A range with a start and an end gives the bytes from the start up to, and not
/// including, the end.
pub proof fn lemma_range_between(data: Seq<u8>, start: u64, end: u64)
    requires
        start <= end <= data.len(),
    ensures
        data_range(data, Some((Some(start), Some(end)))).len() == end - start,
        forall|i: int|
            0 <= i < end - start ==> #[trigger] data_range(data, Some((Some(start), Some(end))))[i] == data[start + i],
{
}

} // verus!
