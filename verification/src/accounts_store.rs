//! The accounts and the layouts in which they are stored.
//!
//! An account is carried as it is: this crate stores and returns its fields
//! and reads nothing into them.

pub mod schema;

use crate::wire::Wire;
use std::collections::HashMap;
use vstd::prelude::*;

verus! {

/// A canister that a user has attached to an account, under a name of the
/// user's choosing.
#[derive(Clone, Debug, PartialEq, Eq)]
pub struct NamedCanister {
    pub name: String,
    /// The bytes of the canister's identifier.
    pub canister_id: Vec<u8>,
}

/// A sub-account of an account.
#[derive(Clone, Debug, PartialEq, Eq)]
pub struct NamedSubAccount {
    pub name: String,
    /// The bytes of the sub-account's identifier on the ledger.
    pub account_identifier: Vec<u8>,
    /// The indices of the sub-account's transactions.
    pub transactions: Vec<u64>,
}

/// An account on a hardware wallet that is linked to an account.
#[derive(Clone, Debug, PartialEq, Eq)]
pub struct NamedHardwareWalletAccount {
    pub name: String,
    /// The bytes of the wallet's principal.
    pub principal: Vec<u8>,
    /// The indices of the wallet account's transactions.
    pub transactions: Vec<u64>,
}

/// One user's holdings and metadata.
#[derive(Clone, Debug, PartialEq, Eq)]
pub struct Account {
    /// The bytes of the user's principal, where it is known.
    pub principal: Option<Vec<u8>>,
    /// The bytes of the account's identifier on the ledger.
    pub account_identifier: Vec<u8>,
    /// The indices of the transactions of the default account.
    pub default_account_transactions: Vec<u64>,
    /// The sub-accounts, by the number that each is derived with.
    pub sub_accounts: HashMap<u8, NamedSubAccount>,
    pub hardware_wallet_accounts: Vec<NamedHardwareWalletAccount>,
    /// The canisters attached to the account, in the order of attachment.
    /// A canister may occur twice.
    pub canisters: Vec<NamedCanister>,
}

/// What a named canister is: its name and the bytes of its identifier.
pub struct NamedCanisterModel {
    pub name: Seq<char>,
    pub canister_id: Seq<u8>,
}

impl NamedCanisterModel {
    /// The fields in a row, in the order in which they are written.
    pub open spec fn row(self) -> (Seq<char>, Seq<u8>) {
        (self.name, self.canister_id)
    }

    /// The value whose fields in a row are `row`.
    pub open spec fn of_row(row: (Seq<char>, Seq<u8>)) -> NamedCanisterModel {
        NamedCanisterModel {
            name: row.0,
            canister_id: row.1,
        }
    }
}

impl Wire for NamedCanister {
    type Model = NamedCanisterModel;

    open spec fn model(&self) -> NamedCanisterModel {
        NamedCanisterModel {
            name: self.name.model(),
            canister_id: self.canister_id.model(),
        }
    }

    open spec fn fits(m: NamedCanisterModel) -> bool {
        <(String, Vec<u8>) as Wire>::fits(m.row())
    }

    open spec fn wire(m: NamedCanisterModel) -> Seq<u8> {
        <(String, Vec<u8>) as Wire>::wire(m.row())
    }

    open spec fn parse(s: Seq<u8>) -> Option<(NamedCanisterModel, int)> {
        match <(String, Vec<u8>) as Wire>::parse(s) {
            Some((row, n)) => Some((NamedCanisterModel::of_row(row), n)),
            None => None,
        }
    }

    proof fn lemma_parse_bounds(s: Seq<u8>) {
        <(String, Vec<u8>) as Wire>::lemma_parse_bounds(s);
    }

    proof fn lemma_round_trip(m: NamedCanisterModel, rest: Seq<u8>) {
        <(String, Vec<u8>) as Wire>::lemma_round_trip(m.row(), rest);
    }

    proof fn lemma_parse_is_wire(s: Seq<u8>) {
        <(String, Vec<u8>) as Wire>::lemma_parse_is_wire(s);
    }

    fn write(&self, out: &mut Vec<u8>) {
        self.name.write(out);
        self.canister_id.write(out);
    }

    fn read(input: &[u8], pos: usize) -> (r: Option<(NamedCanister, usize)>) {
        match <(String, Vec<u8>) as Wire>::read(input, pos) {
            Some(((name, canister_id), end)) => Some((NamedCanister { name, canister_id }, end)),
            None => None,
        }
    }
}

/// What a sub-account is: its name, the bytes of its account identifier and
/// the indices of its transactions.
pub struct NamedSubAccountModel {
    pub name: Seq<char>,
    pub account_identifier: Seq<u8>,
    pub transactions: Seq<u64>,
}

impl NamedSubAccountModel {
    /// The fields in a row, in the order in which they are written.
    pub open spec fn row(self) -> (Seq<char>, (Seq<u8>, Seq<u64>)) {
        (self.name, (self.account_identifier, self.transactions))
    }

    /// The value whose fields in a row are `row`.
    pub open spec fn of_row(row: (Seq<char>, (Seq<u8>, Seq<u64>))) -> NamedSubAccountModel {
        NamedSubAccountModel {
            name: row.0,
            account_identifier: row.1.0,
            transactions: row.1.1,
        }
    }
}

impl Wire for NamedSubAccount {
    type Model = NamedSubAccountModel;

    open spec fn model(&self) -> NamedSubAccountModel {
        NamedSubAccountModel {
            name: self.name.model(),
            account_identifier: self.account_identifier.model(),
            transactions: self.transactions.model(),
        }
    }

    open spec fn fits(m: NamedSubAccountModel) -> bool {
        <(String, (Vec<u8>, Vec<u64>)) as Wire>::fits(m.row())
    }

    open spec fn wire(m: NamedSubAccountModel) -> Seq<u8> {
        <(String, (Vec<u8>, Vec<u64>)) as Wire>::wire(m.row())
    }

    open spec fn parse(s: Seq<u8>) -> Option<(NamedSubAccountModel, int)> {
        match <(String, (Vec<u8>, Vec<u64>)) as Wire>::parse(s) {
            Some((row, n)) => Some((NamedSubAccountModel::of_row(row), n)),
            None => None,
        }
    }

    proof fn lemma_parse_bounds(s: Seq<u8>) {
        <(String, (Vec<u8>, Vec<u64>)) as Wire>::lemma_parse_bounds(s);
    }

    proof fn lemma_round_trip(m: NamedSubAccountModel, rest: Seq<u8>) {
        <(String, (Vec<u8>, Vec<u64>)) as Wire>::lemma_round_trip(m.row(), rest);
    }

    proof fn lemma_parse_is_wire(s: Seq<u8>) {
        <(String, (Vec<u8>, Vec<u64>)) as Wire>::lemma_parse_is_wire(s);
    }

    fn write(&self, out: &mut Vec<u8>) {
        self.name.write(out);
        self.account_identifier.write(out);
        self.transactions.write(out);
    }

    fn read(input: &[u8], pos: usize) -> (r: Option<(NamedSubAccount, usize)>) {
        match <(String, (Vec<u8>, Vec<u64>)) as Wire>::read(input, pos) {
            Some(((name, (account_identifier, transactions)), end)) => Some((NamedSubAccount { name, account_identifier, transactions }, end)),
            None => None,
        }
    }
}

/// What a hardware wallet account is: its name, the bytes of its principal
/// and the indices of its transactions.
pub struct NamedHardwareWalletAccountModel {
    pub name: Seq<char>,
    pub principal: Seq<u8>,
    pub transactions: Seq<u64>,
}

impl NamedHardwareWalletAccountModel {
    /// The fields in a row, in the order in which they are written.
    pub open spec fn row(self) -> (Seq<char>, (Seq<u8>, Seq<u64>)) {
        (self.name, (self.principal, self.transactions))
    }

    /// The value whose fields in a row are `row`.
    pub open spec fn of_row(row: (Seq<char>, (Seq<u8>, Seq<u64>))) -> NamedHardwareWalletAccountModel {
        NamedHardwareWalletAccountModel {
            name: row.0,
            principal: row.1.0,
            transactions: row.1.1,
        }
    }
}

impl Wire for NamedHardwareWalletAccount {
    type Model = NamedHardwareWalletAccountModel;

    open spec fn model(&self) -> NamedHardwareWalletAccountModel {
        NamedHardwareWalletAccountModel {
            name: self.name.model(),
            principal: self.principal.model(),
            transactions: self.transactions.model(),
        }
    }

    open spec fn fits(m: NamedHardwareWalletAccountModel) -> bool {
        <(String, (Vec<u8>, Vec<u64>)) as Wire>::fits(m.row())
    }

    open spec fn wire(m: NamedHardwareWalletAccountModel) -> Seq<u8> {
        <(String, (Vec<u8>, Vec<u64>)) as Wire>::wire(m.row())
    }

    open spec fn parse(s: Seq<u8>) -> Option<(NamedHardwareWalletAccountModel, int)> {
        match <(String, (Vec<u8>, Vec<u64>)) as Wire>::parse(s) {
            Some((row, n)) => Some((NamedHardwareWalletAccountModel::of_row(row), n)),
            None => None,
        }
    }

    proof fn lemma_parse_bounds(s: Seq<u8>) {
        <(String, (Vec<u8>, Vec<u64>)) as Wire>::lemma_parse_bounds(s);
    }

    proof fn lemma_round_trip(m: NamedHardwareWalletAccountModel, rest: Seq<u8>) {
        <(String, (Vec<u8>, Vec<u64>)) as Wire>::lemma_round_trip(m.row(), rest);
    }

    proof fn lemma_parse_is_wire(s: Seq<u8>) {
        <(String, (Vec<u8>, Vec<u64>)) as Wire>::lemma_parse_is_wire(s);
    }

    fn write(&self, out: &mut Vec<u8>) {
        self.name.write(out);
        self.principal.write(out);
        self.transactions.write(out);
    }

    fn read(input: &[u8], pos: usize) -> (r: Option<(NamedHardwareWalletAccount, usize)>) {
        match <(String, (Vec<u8>, Vec<u64>)) as Wire>::read(input, pos) {
            Some(((name, (principal, transactions)), end)) => Some((NamedHardwareWalletAccount { name, principal, transactions }, end)),
            None => None,
        }
    }
}

/// What an account is, field by field.
pub struct AccountModel {
    pub principal: Option<Seq<u8>>,
    pub account_identifier: Seq<u8>,
    pub default_account_transactions: Seq<u64>,
    pub sub_accounts: Map<u8, NamedSubAccountModel>,
    pub hardware_wallet_accounts: Seq<NamedHardwareWalletAccountModel>,
    pub canisters: Seq<NamedCanisterModel>,
}

impl AccountModel {
    /// The fields in a row, in the order in which they are written.
    pub open spec fn row(self) -> (Option<Seq<u8>>, (Seq<u8>, (Seq<u64>, (Map<u8, NamedSubAccountModel>, (Seq<NamedHardwareWalletAccountModel>, Seq<NamedCanisterModel>))))) {
        (self.principal, (self.account_identifier, (self.default_account_transactions, (self.sub_accounts, (self.hardware_wallet_accounts, self.canisters)))))
    }

    /// The value whose fields in a row are `row`.
    pub open spec fn of_row(row: (Option<Seq<u8>>, (Seq<u8>, (Seq<u64>, (Map<u8, NamedSubAccountModel>, (Seq<NamedHardwareWalletAccountModel>, Seq<NamedCanisterModel>)))))) -> AccountModel {
        AccountModel {
            principal: row.0,
            account_identifier: row.1.0,
            default_account_transactions: row.1.1.0,
            sub_accounts: row.1.1.1.0,
            hardware_wallet_accounts: row.1.1.1.1.0,
            canisters: row.1.1.1.1.1,
        }
    }
}

impl Wire for Account {
    type Model = AccountModel;

    open spec fn model(&self) -> AccountModel {
        AccountModel {
            principal: self.principal.model(),
            account_identifier: self.account_identifier.model(),
            default_account_transactions: self.default_account_transactions.model(),
            sub_accounts: self.sub_accounts.model(),
            hardware_wallet_accounts: self.hardware_wallet_accounts.model(),
            canisters: self.canisters.model(),
        }
    }

    open spec fn fits(m: AccountModel) -> bool {
        <(Option<Vec<u8>>, (Vec<u8>, (Vec<u64>, (HashMap<u8, NamedSubAccount>, (Vec<NamedHardwareWalletAccount>, Vec<NamedCanister>))))) as Wire>::fits(m.row())
    }

    open spec fn wire(m: AccountModel) -> Seq<u8> {
        <(Option<Vec<u8>>, (Vec<u8>, (Vec<u64>, (HashMap<u8, NamedSubAccount>, (Vec<NamedHardwareWalletAccount>, Vec<NamedCanister>))))) as Wire>::wire(m.row())
    }

    open spec fn parse(s: Seq<u8>) -> Option<(AccountModel, int)> {
        match <(Option<Vec<u8>>, (Vec<u8>, (Vec<u64>, (HashMap<u8, NamedSubAccount>, (Vec<NamedHardwareWalletAccount>, Vec<NamedCanister>))))) as Wire>::parse(s) {
            Some((row, n)) => Some((AccountModel::of_row(row), n)),
            None => None,
        }
    }

    proof fn lemma_parse_bounds(s: Seq<u8>) {
        <(Option<Vec<u8>>, (Vec<u8>, (Vec<u64>, (HashMap<u8, NamedSubAccount>, (Vec<NamedHardwareWalletAccount>, Vec<NamedCanister>))))) as Wire>::lemma_parse_bounds(s);
    }

    proof fn lemma_round_trip(m: AccountModel, rest: Seq<u8>) {
        <(Option<Vec<u8>>, (Vec<u8>, (Vec<u64>, (HashMap<u8, NamedSubAccount>, (Vec<NamedHardwareWalletAccount>, Vec<NamedCanister>))))) as Wire>::lemma_round_trip(m.row(), rest);
    }

    proof fn lemma_parse_is_wire(s: Seq<u8>) {
        <(Option<Vec<u8>>, (Vec<u8>, (Vec<u64>, (HashMap<u8, NamedSubAccount>, (Vec<NamedHardwareWalletAccount>, Vec<NamedCanister>))))) as Wire>::lemma_parse_is_wire(s);
    }

    fn write(&self, out: &mut Vec<u8>) {
        self.principal.write(out);
        self.account_identifier.write(out);
        self.default_account_transactions.write(out);
        self.sub_accounts.write(out);
        self.hardware_wallet_accounts.write(out);
        self.canisters.write(out);
    }

    fn read(input: &[u8], pos: usize) -> (r: Option<(Account, usize)>) {
        match <(Option<Vec<u8>>, (Vec<u8>, (Vec<u64>, (HashMap<u8, NamedSubAccount>, (Vec<NamedHardwareWalletAccount>, Vec<NamedCanister>))))) as Wire>::read(input, pos) {
            Some(((principal, (account_identifier, (default_account_transactions, (sub_accounts, (hardware_wallet_accounts, canisters))))), end)) => Some((Account { principal, account_identifier, default_account_transactions, sub_accounts, hardware_wallet_accounts, canisters }, end)),
            None => None,
        }
    }
}

/// The account that `bytes` are the serialized form of, where they are
/// that of an account from their first byte to their last.
pub open spec fn decoded(bytes: Seq<u8>) -> Option<AccountModel> {
    match Account::parse(bytes) {
        Some((m, n)) => if n == bytes.len() {
            Some(m)
        } else {
            None
        },
        None => None,
    }
}

/// A serialized account is read back as the account.
pub proof fn lemma_decoded_wire(m: AccountModel)
    requires
        Account::fits(m),
    ensures
        decoded(Account::wire(m)) == Some(m),
        Account::wire(m).len() > 0,
{
    Account::lemma_round_trip(m, Seq::empty());
}

/// An account has one serialized form only: the serialized form of an
/// account that was read from bytes is those bytes.
pub proof fn lemma_wire_of_decoded(bytes: Seq<u8>)
    ensures
        decoded(bytes) matches Some(m) ==> Account::wire(m) == bytes && Account::fits(m),
{
    Account::lemma_parse_is_wire(bytes);
    Account::lemma_parse_bounds(bytes);
}

impl Account {
    /// The serialized form of the account.
    pub fn to_bytes(&self) -> (bytes: Vec<u8>)
        ensures
            Account::fits(self.model()),
            bytes@ == Account::wire(self.model()),
            bytes@.len() > 0,
    {
        let mut bytes: Vec<u8> = Vec::new();
        self.write(&mut bytes);
        bytes
    }

    /// The account that `bytes` are the serialized form of, or `None` where
    /// they are that of no account.
    pub fn from_bytes(bytes: &[u8]) -> (account: Option<Account>)
        ensures
            match account {
                Some(read) => decoded(bytes@) == Some(read.model()) && Account::wire(read.model())
                    == bytes@,
                None => decoded(bytes@) is None,
            },
    {
        assert(bytes@.skip(0) =~= bytes@);
        proof {
            lemma_wire_of_decoded(bytes@);
        }
        match <Account as Wire>::read(bytes, 0) {
            Some((account, end)) => if end == bytes.len() {
                Some(account)
            } else {
                None
            },
            None => None,
        }
    }
}

} // verus!
