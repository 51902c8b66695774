use vstd::prelude::*;

verus! {

/// A wallet account.
#[derive(Debug)]
pub struct Account {
    pub name: Option<String>,
    /// The account component's substate id, in its string form.
    pub address: String,
    pub key_index: u64,
    pub is_default: bool,
}

/// Errors of the wallet's storage.
#[derive(Debug, PartialEq, Eq)]
pub enum WalletStorageError {
    NotFound { item: &'static str, key: String },
    DuplicateEntry { item: &'static str, key: String },
}

/// Errors of the accounts API.
#[derive(Debug, PartialEq, Eq)]
pub enum AccountsApiError {
    StoreError(WalletStorageError),
    AccountNameAlreadyExists { name: String },
}

impl AccountsApiError {
    /// Whether the error says that what was asked for does not exist.
    pub fn is_not_found_error(&self) -> (r: bool)
        ensures
            r == (*self matches AccountsApiError::StoreError(WalletStorageError::NotFound { .. })),
    {
        matches!(self, AccountsApiError::StoreError(WalletStorageError::NotFound { .. }))
    }
}

/// The wallet's account records, in the order they were added.
pub struct WalletStore {
    pub accounts: Vec<Account>,
}

impl WalletStore {
    pub fn new() -> (r: WalletStore)
        ensures
            r.accounts@.len() == 0,
    {
        WalletStore { accounts: Vec::new() }
    }
}

fn copy_string(s: &String) -> (r: String)
    ensures
        r == *s,
{
    s.clone()
}

fn copy_account(a: &Account) -> (r: Account)
    ensures
        r == *a,
{
    let name = match &a.name {
        Some(n) => Some(copy_string(n)),
        None => None,
    };
    Account { name, address: copy_string(&a.address), key_index: a.key_index, is_default: a.is_default }
}

/// Index of the first account that satisfies a predicate over its name.
pub open spec fn first_named(accounts: Seq<Account>, name: Seq<char>) -> Option<int>
    decreases accounts.len(),
{
    if accounts.len() == 0 {
        None
    } else if accounts[0].name matches Some(n) && n@ == name {
        Some(0)
    } else {
        match first_named(accounts.subrange(1, accounts.len() as int), name) {
            Some(i) => Some(i + 1),
            None => None,
        }
    }
}

pub open spec fn first_with_address(accounts: Seq<Account>, address: Seq<char>) -> Option<int>
    decreases accounts.len(),
{
    if accounts.len() == 0 {
        None
    } else if accounts[0].address@ == address {
        Some(0)
    } else {
        match first_with_address(accounts.subrange(1, accounts.len() as int), address) {
            Some(i) => Some(i + 1),
            None => None,
        }
    }
}

pub open spec fn first_default(accounts: Seq<Account>) -> Option<int>
    decreases accounts.len(),
{
    if accounts.len() == 0 {
        None
    } else if accounts[0].is_default {
        Some(0)
    } else {
        match first_default(accounts.subrange(1, accounts.len() as int)) {
            Some(i) => Some(i + 1),
            None => None,
        }
    }
}

/// Another account already has the name, if one is given.
pub open spec fn name_taken(accounts: Seq<Account>, name: Option<&str>) -> bool {
    match name {
        Some(n) => first_named(accounts, n@) is Some,
        None => false,
    }
}

/// The accounts at positions `offset` up to `offset + limit`, clipped to those that exist.
pub open spec fn page(accounts: Seq<Account>, offset: u64, limit: u64) -> Seq<Account> {
    let start = if offset as int <= accounts.len() { offset as int } else { accounts.len() as int };
    let end = if start + limit as int <= accounts.len() { start + limit as int } else { accounts.len() as int };
    accounts.subrange(start, end)
}

fn find_named(accounts: &Vec<Account>, name: &str) -> (r: Option<usize>)
    ensures
        r matches Some(i) ==> i < accounts@.len(),
        r is None <==> first_named(accounts@, name@) is None,
        r matches Some(i) ==> first_named(accounts@, name@) == Some(i as int),
{
    let target = name.to_owned();
    let mut i: usize = 0;
    assert(accounts@.subrange(0, accounts@.len() as int) =~= accounts@);
    while i < accounts.len()
        invariant
            i <= accounts@.len(),
            target@ == name@,
            first_named(accounts@, name@) == match first_named(
                accounts@.subrange(i as int, accounts@.len() as int),
                name@,
            ) {
                Some(j) => Some(j + i),
                None => None,
            },
        decreases accounts@.len() - i,
    {
        let ghost tail = accounts@.subrange(i as int, accounts@.len() as int);
        assert(tail[0] == accounts@[i as int]);
        assert(tail.subrange(1, tail.len() as int) =~= accounts@.subrange(i as int + 1, accounts@.len() as int));
        let hit = match &accounts[i].name {
            Some(n) => *n == target,
            None => false,
        };
        if hit {
            return Some(i);
        }
        i = i + 1;
    }
    None
}

fn find_address(accounts: &Vec<Account>, address: &str) -> (r: Option<usize>)
    ensures
        r matches Some(i) ==> i < accounts@.len(),
        r is None <==> first_with_address(accounts@, address@) is None,
        r matches Some(i) ==> first_with_address(accounts@, address@) == Some(i as int),
{
    let target = address.to_owned();
    let mut i: usize = 0;
    assert(accounts@.subrange(0, accounts@.len() as int) =~= accounts@);
    while i < accounts.len()
        invariant
            i <= accounts@.len(),
            target@ == address@,
            first_with_address(accounts@, address@) == match first_with_address(
                accounts@.subrange(i as int, accounts@.len() as int),
                address@,
            ) {
                Some(j) => Some(j + i),
                None => None,
            },
        decreases accounts@.len() - i,
    {
        let ghost tail = accounts@.subrange(i as int, accounts@.len() as int);
        assert(tail[0] == accounts@[i as int]);
        assert(tail.subrange(1, tail.len() as int) =~= accounts@.subrange(i as int + 1, accounts@.len() as int));
        if accounts[i].address == target {
            return Some(i);
        }
        i = i + 1;
    }
    None
}

fn find_default(accounts: &Vec<Account>) -> (r: Option<usize>)
    ensures
        r matches Some(i) ==> i < accounts@.len(),
        r is None <==> first_default(accounts@) is None,
        r matches Some(i) ==> first_default(accounts@) == Some(i as int),
{
    let mut i: usize = 0;
    assert(accounts@.subrange(0, accounts@.len() as int) =~= accounts@);
    while i < accounts.len()
        invariant
            i <= accounts@.len(),
            first_default(accounts@) == match first_default(accounts@.subrange(i as int, accounts@.len() as int)) {
                Some(j) => Some(j + i),
                None => None,
            },
        decreases accounts@.len() - i,
    {
        let ghost tail = accounts@.subrange(i as int, accounts@.len() as int);
        assert(tail[0] == accounts@[i as int]);
        assert(tail.subrange(1, tail.len() as int) =~= accounts@.subrange(i as int + 1, accounts@.len() as int));
        if accounts[i].is_default {
            return Some(i);
        }
        i = i + 1;
    }
    None
}

/// Account operations of the wallet.
pub struct AccountsApi {
    pub store: WalletStore,
}

impl AccountsApi {
    pub fn new(store: WalletStore) -> (r: AccountsApi)
        ensures
            r.store == store,
    {
        AccountsApi { store }
    }

    /// Adds an account. A name that another account already has is refused, as is an address
    /// that is already an account's. A new default account takes over from the previous one.
    pub fn add_account(
        &mut self,
        account_name: Option<&str>,
        account_address: &str,
        owner_key_index: u64,
        is_default: bool,
    ) -> (r: Result<(), AccountsApiError>)
        ensures
            name_taken(old(self).store.accounts@, account_name) ==> (r matches Err(
                AccountsApiError::AccountNameAlreadyExists { name },
            ) && name@ == account_name->Some_0@) && *final(self) == *old(self),
            !name_taken(old(self).store.accounts@, account_name) && first_with_address(
                old(self).store.accounts@,
                account_address@,
            ) is Some ==> (r matches Err(AccountsApiError::StoreError(WalletStorageError::DuplicateEntry { .. })))
                && *final(self) == *old(self),
            r is Ok <==> !name_taken(old(self).store.accounts@, account_name) && first_with_address(
                old(self).store.accounts@,
                account_address@,
            ) is None,
            r is Ok ==> final(self).store.accounts@.len() == old(self).store.accounts@.len() + 1 && ({
                let a = final(self).store.accounts@.last();
                &&& a.address@ == account_address@
                &&& a.key_index == owner_key_index
                &&& a.is_default == is_default
                &&& (a.name matches Some(n) <==> account_name is Some)
                &&& (a.name matches Some(n) ==> n@ == account_name->Some_0@)
            }),
            r is Ok ==> forall|i: int|
                #![trigger final(self).store.accounts@[i]]
                0 <= i < old(self).store.accounts@.len() ==> ({
                    let o = old(self).store.accounts@[i];
                    let n = final(self).store.accounts@[i];
                    n.name == o.name && n.address == o.address && n.key_index == o.key_index && n.is_default
                        == (o.is_default && !is_default)
                }),
    {
        if let Some(name) = account_name {
            if find_named(&self.store.accounts, name).is_some() {
                return Err(AccountsApiError::AccountNameAlreadyExists { name: name.to_owned() });
            }
        }
        if find_address(&self.store.accounts, account_address).is_some() {
            return Err(
                AccountsApiError::StoreError(
                    WalletStorageError::DuplicateEntry { item: "account", key: account_address.to_owned() },
                ),
            );
        }
        if is_default {
            self.clear_default();
        }
        let name = match account_name {
            Some(n) => Some(n.to_owned()),
            None => None,
        };
        self.store.accounts.push(
            Account { name, address: account_address.to_owned(), key_index: owner_key_index, is_default },
        );
        Ok(())
    }

    fn clear_default(&mut self)
        ensures
            final(self).store.accounts@.len() == old(self).store.accounts@.len(),
            forall|i: int|
                #![trigger final(self).store.accounts@[i]]
                0 <= i < old(self).store.accounts@.len() ==> ({
                    let o = old(self).store.accounts@[i];
                    let n = final(self).store.accounts@[i];
                    n.name == o.name && n.address == o.address && n.key_index == o.key_index && !n.is_default
                }),
    {
        let ghost orig = self.store.accounts@;
        let mut i: usize = 0;
        while i < self.store.accounts.len()
            invariant
                i <= self.store.accounts@.len(),
                self.store.accounts@.len() == orig.len(),
                forall|j: int|
                    #![trigger self.store.accounts@[j]]
                    0 <= j < orig.len() ==> ({
                        let o = orig[j];
                        let n = self.store.accounts@[j];
                        n.name == o.name && n.address == o.address && n.key_index == o.key_index && (j < i
                            ==> !n.is_default) && (j >= i ==> n.is_default == o.is_default)
                    }),
            decreases orig.len() - i,
        {
            let mut a = self.store.accounts.remove(i);
            a.is_default = false;
            self.store.accounts.insert(i, a);
            i = i + 1;
        }
    }

    /// Makes the account at `account_addr` the only default one.
    pub fn set_default_account(&mut self, account_addr: &str) -> (r: Result<(), AccountsApiError>)
        ensures
            first_with_address(old(self).store.accounts@, account_addr@) is None ==> (r matches Err(
                AccountsApiError::StoreError(WalletStorageError::NotFound { item, key }),
            ) && key@ == account_addr@) && *final(self) == *old(self),
            first_with_address(old(self).store.accounts@, account_addr@) matches Some(k) ==> r is Ok
                && final(self).store.accounts@.len() == old(self).store.accounts@.len() && forall|i: int|
                #![trigger final(self).store.accounts@[i]]
                0 <= i < old(self).store.accounts@.len() ==> ({
                    let o = old(self).store.accounts@[i];
                    let n = final(self).store.accounts@[i];
                    n.name == o.name && n.address == o.address && n.key_index == o.key_index && n.is_default
                        == (i == k)
                }),
    {
        let k = match find_address(&self.store.accounts, account_addr) {
            Some(k) => k,
            None => {
                return Err(
                    AccountsApiError::StoreError(
                        WalletStorageError::NotFound { item: "account", key: account_addr.to_owned() },
                    ),
                );
            },
        };
        self.clear_default();
        let mut a = self.store.accounts.remove(k);
        a.is_default = true;
        self.store.accounts.insert(k, a);
        Ok(())
    }

    /// The accounts from position `offset`, at most `limit` of them, in the order they were
    /// added.
    pub fn get_many(&self, offset: u64, limit: u64) -> (r: Result<Vec<Account>, AccountsApiError>)
        ensures
            r matches Ok(v) && v@ == page(self.store.accounts@, offset, limit),
    {
        let accounts = &self.store.accounts;
        let len = accounts.len();
        let start: usize = if offset <= len as u64 {
            offset as usize
        } else {
            len
        };
        let end: usize = if limit <= (len - start) as u64 {
            start + limit as usize
        } else {
            len
        };
        let mut out: Vec<Account> = Vec::new();
        let mut i: usize = start;
        while i < end
            invariant
                start <= i <= end <= accounts@.len(),
                out@ == accounts@.subrange(start as int, i as int),
            decreases end - i,
        {
            out.push(copy_account(&accounts[i]));
            assert(accounts@.subrange(start as int, i as int + 1) =~= accounts@.subrange(start as int, i as int).push(
                accounts@[i as int],
            ));
            i = i + 1;
        }
        Ok(out)
    }

    /// How many accounts the wallet has.
    pub fn count(&self) -> (r: Result<u64, AccountsApiError>)
        ensures
            r == Ok::<u64, AccountsApiError>(self.store.accounts@.len() as u64),
    {
        Ok(self.store.accounts.len() as u64)
    }

    /// The default account.
    pub fn get_default(&self) -> (r: Result<Account, AccountsApiError>)
        ensures
            first_default(self.store.accounts@) matches Some(i) ==> r == Ok::<Account, AccountsApiError>(
                self.store.accounts@[i],
            ),
            first_default(self.store.accounts@) is None ==> r matches Err(
                AccountsApiError::StoreError(WalletStorageError::NotFound { .. }),
            ),
    {
        match find_default(&self.store.accounts) {
            Some(i) => Ok(copy_account(&self.store.accounts[i])),
            None => Err(
                AccountsApiError::StoreError(
                    WalletStorageError::NotFound { item: "account", key: "default".to_owned() },
                ),
            ),
        }
    }

    /// The account with this name.
    pub fn get_account_by_name(&self, name: &str) -> (r: Result<Account, AccountsApiError>)
        ensures
            first_named(self.store.accounts@, name@) matches Some(i) ==> r == Ok::<Account, AccountsApiError>(
                self.store.accounts@[i],
            ),
            first_named(self.store.accounts@, name@) is None ==> (r matches Err(
                AccountsApiError::StoreError(WalletStorageError::NotFound { item, key }),
            ) && key@ == name@),
    {
        match find_named(&self.store.accounts, name) {
            Some(i) => Ok(copy_account(&self.store.accounts[i])),
            None => Err(
                AccountsApiError::StoreError(WalletStorageError::NotFound { item: "account", key: name.to_owned() }),
            ),
        }
    }

    /// The account at this address.
    pub fn get_account_by_address(&self, address: &str) -> (r: Result<Account, AccountsApiError>)
        ensures
            first_with_address(self.store.accounts@, address@) matches Some(i) ==> r == Ok::<
                Account,
                AccountsApiError,
            >(self.store.accounts@[i]),
            first_with_address(self.store.accounts@, address@) is None ==> (r matches Err(
                AccountsApiError::StoreError(WalletStorageError::NotFound { item, key }),
            ) && key@ == address@),
    {
        match find_address(&self.store.accounts, address) {
            Some(i) => Ok(copy_account(&self.store.accounts[i])),
            None => Err(
                AccountsApiError::StoreError(
                    WalletStorageError::NotFound { item: "account", key: address.to_owned() },
                ),
            ),
        }
    }

    /// Whether an account has this address.
    pub fn exists_by_address(&self, address: &str) -> (r: Result<bool, AccountsApiError>)
        ensures
            r == Ok::<bool, AccountsApiError>(first_with_address(self.store.accounts@, address@) is Some),
    {
        Ok(find_address(&self.store.accounts, address).is_some())
    }

    /// Whether an account has this address.
    pub fn has_account(&self, addr: &str) -> (r: Result<bool, AccountsApiError>)
        ensures
            r == Ok::<bool, AccountsApiError>(first_with_address(self.store.accounts@, addr@) is Some),
    {
        self.exists_by_address(addr)
    }

    /// The account at `address`, or the default account when no address is given.
    pub fn get_account_or_default(&self, address: Option<&str>) -> (r: Result<Account, AccountsApiError>)
        ensures
            address matches Some(a) ==> (first_with_address(self.store.accounts@, a@) matches Some(i) ==> r
                == Ok::<Account, AccountsApiError>(self.store.accounts@[i])),
            address matches Some(a) ==> (first_with_address(self.store.accounts@, a@) is None ==> r is Err),
            address is None ==> (first_default(self.store.accounts@) matches Some(i) ==> r == Ok::<
                Account,
                AccountsApiError,
            >(self.store.accounts@[i])),
            address is None ==> (first_default(self.store.accounts@) is None ==> r is Err),
    {
        match address {
            Some(a) => self.get_account_by_address(a),
            None => self.get_default(),
        }
    }
}

} // verus!
