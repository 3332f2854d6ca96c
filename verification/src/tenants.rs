use std::collections::HashMap;
use vstd::prelude::*;

verus! {

broadcast use vstd::std_specs::hash::group_hash_axioms;

/// The character of the decimal digit `d`.
pub open spec fn digit_char(d: nat) -> char
    recommends
        d < 10,
{
    (d + 48) as char
}

pub open spec fn is_digit(c: char) -> bool {
    48 <= (c as u32) <= 57
}

/// `n` written in decimal, without leading zeros.
pub open spec fn decimal(n: nat) -> Seq<char>
    decreases n,
{
    if n < 10 {
        seq![digit_char(n)]
    } else {
        decimal(n / 10).push(digit_char(n % 10))
    }
}

/// The number that a run of decimal digits denotes.
pub open spec fn digits_value(s: Seq<char>) -> nat
    decreases s.len(),
{
    if s.len() == 0 {
        0
    } else {
        digits_value(s.drop_last()) * 10 + ((s.last() as u32) - 48) as nat
    }
}

/// `s` without the one leading `+` that an unsigned number may carry.
pub open spec fn unsigned_digits(s: Seq<char>) -> Seq<char> {
    if s.len() > 0 && s[0] == '+' {
        s.drop_first()
    } else {
        s
    }
}

/// The tenant whose database directory is named `name`: an optional `+` and one or
/// more decimal digits, of value at most 255 (leading zeros allowed); otherwise none.
pub open spec fn spec_parse_tenant_id(name: Seq<char>) -> Option<u8> {
    let d = unsigned_digits(name);
    if d.len() > 0 && (forall|i: int| 0 <= i < d.len() ==> is_digit(#[trigger] d[i]))
        && digits_value(d) <= 255 {
        Some(digits_value(d) as u8)
    } else {
        None
    }
}

/// The name of the directory that holds the database of `tenant`.
pub open spec fn spec_tenant_dir_name(tenant: u8) -> Seq<char> {
    decimal(tenant as nat)
}

#[verifier::external_body]
fn push_char(s: &mut String, c: char)
    ensures
        final(s)@ == old(s)@.push(c),
{
    s.push(c);
}

fn digit(d: u8) -> (c: char)
    requires
        d < 10,
    ensures
        c == digit_char(d as nat),
{
    (d + 48u8) as char
}

/// The directory name of a tenant's database: its id in decimal.
pub fn tenant_dir_name(tenant: u8) -> (name: String)
    ensures
        name@ == spec_tenant_dir_name(tenant),
{
    let mut name = String::new();
    if tenant >= 100 {
        push_char(&mut name, digit(tenant / 100));
    }
    if tenant >= 10 {
        push_char(&mut name, digit((tenant / 10) % 10));
    }
    push_char(&mut name, digit(tenant % 10));
    proof {
        let n = tenant as nat;
        reveal_with_fuel(decimal, 3);
        if n >= 100 {
            assert(n / 10 / 10 == n / 100);
            assert((n / 10) % 10 == (tenant / 10) % 10);
        }
    }
    assert(name@ =~= decimal(tenant as nat));
    name
}

/// Reads a directory name as a tenant id, as `u8`'s `FromStr` does; `None` where
/// the name is not one.
pub fn parse_tenant_id(name: &str) -> (tenant: Option<u8>)
    ensures
        tenant == spec_parse_tenant_id(name@),
{
    let len = name.unicode_len();
    let ghost s = name@;
    let ghost d = unsigned_digits(s);
    let mut start: usize = 0;
    if len > 0 && name.get_char(0) == '+' {
        start = 1;
    }
    assert(d =~= s.skip(start as int));
    if start >= len {
        return None;
    }
    // the value read so far, held at 256 once it is too large for a tenant id
    let mut value: u32 = 0;
    let mut i: usize = start;
    while i < len
        invariant
            s == name@,
            len == s.len(),
            d == s.skip(start as int),
            d == unsigned_digits(s),
            start <= i <= len,
            forall|j: int| start <= j < i ==> is_digit(#[trigger] s[j]),
            value <= 256,
            value == if digits_value(s.subrange(start as int, i as int)) <= 256 {
                digits_value(s.subrange(start as int, i as int))
            } else {
                256
            },
        decreases len - i,
    {
        let c = name.get_char(i);
        let code = c as u32;
        if !(48 <= code && code <= 57) {
            assert(d[i - start] == s[i as int]);
            assert(!is_digit(s[i as int]));
            assert(!is_digit(d[i - start]));
            assert(spec_parse_tenant_id(s) is None);
            return None;
        }
        let ghost prev = s.subrange(start as int, i as int);
        let ghost next = s.subrange(start as int, i + 1);
        assert(next.drop_last() =~= prev);
        let dv: u32 = code - 48;
        value = if value * 10 + dv > 256 {
            256
        } else {
            value * 10 + dv
        };
        i = i + 1;
    }
    assert(d =~= s.subrange(start as int, len as int));
    assert forall|j: int| 0 <= j < d.len() implies is_digit(#[trigger] d[j]) by {
        assert(d[j] == s[j + start]);
    }
    if value <= 255 {
        Some(value as u8)
    } else {
        None
    }
}

/// Every digit string reads back as the number it was written from.
proof fn lemma_decimal_digits(n: nat)
    ensures
        decimal(n).len() > 0,
        forall|i: int| 0 <= i < decimal(n).len() ==> is_digit(#[trigger] decimal(n)[i]),
        digits_value(decimal(n)) == n,
    decreases n,
{
    if n < 10 {
        assert(digit_char(n) as u32 == n + 48);
        assert(decimal(n).drop_last() =~= Seq::<char>::empty());
        assert(digits_value(Seq::<char>::empty()) == 0);
        assert(digits_value(decimal(n)) == n);
    } else {
        lemma_decimal_digits(n / 10);
        let s = decimal(n / 10);
        assert(decimal(n).drop_last() =~= s);
        let c = digit_char(n % 10);
        assert(c as u32 == n % 10 + 48);
        assert(decimal(n).last() == c);
        assert((n / 10) * 10 + n % 10 == n);
        assert(digits_value(decimal(n)) == digits_value(s) * 10 + n % 10);
        assert(digits_value(decimal(n)) == n);
    }
}

/// A tenant's directory is read back as that same tenant.
pub proof fn law_tenant_dir_roundtrip(tenant: u8)
    ensures
        spec_parse_tenant_id(spec_tenant_dir_name(tenant)) == Some(tenant),
{
    lemma_decimal_digits(tenant as nat);
    let s = decimal(tenant as nat);
    assert(s[0] != '+') by {
        assert(is_digit(s[0]));
    }
}


/// The tenants a database set holds after `tenant` is created with the environment
/// `env`: a tenant that already existed is given the new environment.
pub open spec fn tenants_after_create<D>(tenants: Map<u8, D>, tenant: u8, env: D) -> Map<u8, D> {
    tenants.insert(tenant, env)
}

/// The tenants a database set holds after `tenant` is dropped.
pub open spec fn tenants_after_drop<D>(tenants: Map<u8, D>, tenant: u8) -> Map<u8, D> {
    tenants.remove(tenant)
}

/// The environment under which a provider for `tenant` is opened, if any.
pub open spec fn tenant_env<D>(tenants: Map<u8, D>, tenant: u8) -> Option<D> {
    if tenants.contains_key(tenant) {
        Some(tenants[tenant])
    } else {
        None
    }
}

/// The databases of all tenants, each reached by its tenant id.
pub struct Db<D> {
    databases: HashMap<u8, D>,
}

impl<D> Db<D> {
    /// The environment of each tenant.
    pub closed spec fn tenants(&self) -> Map<u8, D> {
        self.databases@
    }

    /// A set that holds no tenant yet.
    pub fn new() -> (db: Self)
        ensures
            db.tenants() == Map::<u8, D>::empty(),
    {
        Db { databases: HashMap::new() }
    }

    /// Records `env` as the database of `tenant`, in place of any it had.
    pub fn create_tenant(&mut self, tenant: u8, env: D)
        ensures
            final(self).tenants() == tenants_after_create(old(self).tenants(), tenant, env),
    {
        self.databases.insert(tenant, env);
    }

    /// Forgets the database of `tenant`, if it had one.
    pub fn drop_tenant(&mut self, tenant: u8)
        ensures
            final(self).tenants() == tenants_after_drop(old(self).tenants(), tenant),
    {
        self.databases.remove(&tenant);
    }

    /// Opens a read-only provider on the database of `tenant` with `open`: `Ok(None)`
    /// when the tenant has no database, otherwise what `open` gives for its
    /// environment.
    pub fn provider<P, E, F>(&self, tenant: u8, open: F) -> (res: Result<Option<P>, E>) where
        F: Fn(&D) -> Result<P, E>,
        requires
            forall|env: &D| call_requires(open, (env,)),
        ensures
            match tenant_env(self.tenants(), tenant) {
                None => res matches Ok(None),
                Some(env) => match res {
                    Ok(Some(p)) => call_ensures(open, (&env,), Ok(p)),
                    Ok(None) => false,
                    Err(e) => call_ensures(open, (&env,), Err(e)),
                },
            },
    {
        match self.databases.get(&tenant) {
            None => Ok(None),
            Some(env) => match open(env) {
                Ok(p) => Ok(Some(p)),
                Err(e) => Err(e),
            },
        }
    }

    /// Opens a read-write provider on the database of `tenant` with `open`:
    /// `Ok(None)` when the tenant has no database, otherwise what `open` gives for
    /// its environment.
    pub fn provider_mut<P, E, F>(&self, tenant: u8, open: F) -> (res: Result<Option<P>, E>) where
        F: Fn(&D) -> Result<P, E>,
        requires
            forall|env: &D| call_requires(open, (env,)),
        ensures
            match tenant_env(self.tenants(), tenant) {
                None => res matches Ok(None),
                Some(env) => match res {
                    Ok(Some(p)) => call_ensures(open, (&env,), Ok(p)),
                    Ok(None) => false,
                    Err(e) => call_ensures(open, (&env,), Err(e)),
                },
            },
    {
        match self.databases.get(&tenant) {
            None => Ok(None),
            Some(env) => match open(env) {
                Ok(p) => Ok(Some(p)),
                Err(e) => Err(e),
            },
        }
    }
}

/// A created tenant is served from the environment it was created with.
pub proof fn law_create_then_provider<D>(tenants: Map<u8, D>, tenant: u8, env: D)
    ensures
        tenant_env(tenants_after_create(tenants, tenant, env), tenant) == Some(env),
{
}

/// A dropped tenant has no provider any more.
pub proof fn law_drop_then_no_provider<D>(tenants: Map<u8, D>, tenant: u8)
    ensures
        tenant_env(tenants_after_drop(tenants, tenant), tenant) == None::<D>,
{
}

/// Tenant isolation: creating or dropping one tenant leaves the database of every
/// other tenant as it was.
pub proof fn law_other_tenants_unchanged<D>(tenants: Map<u8, D>, tenant: u8, env: D, other: u8)
    requires
        other != tenant,
    ensures
        tenant_env(tenants_after_create(tenants, tenant, env), other) == tenant_env(tenants, other),
        tenant_env(tenants_after_drop(tenants, tenant), other) == tenant_env(tenants, other),
{
}


/// A change made to the set of tenant databases.
pub enum TenantChange<D> {
    CreateTenant { tenant: u8, env: D },
    DropTenant { tenant: u8 },
}

/// The tenant that `change` is about.
pub open spec fn changed_tenant<D>(change: TenantChange<D>) -> u8 {
    match change {
        TenantChange::CreateTenant { tenant, .. } => tenant,
        TenantChange::DropTenant { tenant } => tenant,
    }
}

/// The tenants after one change.
pub open spec fn tenants_after_change<D>(tenants: Map<u8, D>, change: TenantChange<D>) -> Map<
    u8,
    D,
> {
    match change {
        TenantChange::CreateTenant { tenant, env } => tenants_after_create(tenants, tenant, env),
        TenantChange::DropTenant { tenant } => tenants_after_drop(tenants, tenant),
    }
}

/// The tenants after the changes of `changes`, made in order.
pub open spec fn tenants_after_changes<D>(tenants: Map<u8, D>, changes: Seq<TenantChange<D>>) -> Map<
    u8,
    D,
>
    decreases changes.len(),
{
    if changes.len() == 0 {
        tenants
    } else {
        tenants_after_changes(tenants_after_change(tenants, changes[0]), changes.drop_first())
    }
}

proof fn lemma_kept_without_drop<D>(tenants: Map<u8, D>, tenant: u8, changes: Seq<TenantChange<D>>)
    requires
        tenants.contains_key(tenant),
        forall|i: int|
            0 <= i < changes.len() ==> !(#[trigger] changes[i] matches TenantChange::DropTenant {
                tenant: t,
            } && t == tenant),
    ensures
        tenants_after_changes(tenants, changes).contains_key(tenant),
    decreases changes.len(),
{
    if changes.len() > 0 {
        let first = changes[0];
        assert(!(first matches TenantChange::DropTenant { tenant: t } && t == tenant));
        let rest = changes.drop_first();
        assert forall|i: int| 0 <= i < rest.len() implies !(#[trigger] rest[i] matches TenantChange::DropTenant {
            tenant: t,
        } && t == tenant) by {
            assert(rest[i] == changes[i + 1]);
        }
        lemma_kept_without_drop(tenants_after_change(tenants, first), tenant, rest);
    }
}

/// A created tenant stays served, by some environment, through any changes until it
/// is dropped: creating other tenants, dropping other tenants, and creating it again
/// all leave it with a provider.
pub proof fn law_created_tenant_stays_until_dropped<D>(
    tenants: Map<u8, D>,
    tenant: u8,
    env: D,
    changes: Seq<TenantChange<D>>,
)
    requires
        forall|i: int|
            0 <= i < changes.len() ==> !(#[trigger] changes[i] matches TenantChange::DropTenant {
                tenant: t,
            } && t == tenant),
    ensures
        tenant_env(
            tenants_after_changes(tenants_after_create(tenants, tenant, env), changes),
            tenant,
        ) is Some,
{
    lemma_kept_without_drop(tenants_after_create(tenants, tenant, env), tenant, changes);
}

/// Tenant isolation over any history: changes that name other tenants only leave a
/// tenant's database as it was.
pub proof fn law_untouched_tenant_unchanged<D>(
    tenants: Map<u8, D>,
    tenant: u8,
    changes: Seq<TenantChange<D>>,
)
    requires
        forall|i: int| 0 <= i < changes.len() ==> changed_tenant(#[trigger] changes[i]) != tenant,
    ensures
        tenant_env(tenants_after_changes(tenants, changes), tenant) == tenant_env(tenants, tenant),
    decreases changes.len(),
{
    if changes.len() > 0 {
        let rest = changes.drop_first();
        assert(changed_tenant(changes[0]) != tenant);
        assert forall|i: int| 0 <= i < rest.len() implies changed_tenant(#[trigger] rest[i])
            != tenant by {
            assert(rest[i] == changes[i + 1]);
        }
        let next = tenants_after_change(tenants, changes[0]);
        law_untouched_tenant_unchanged(next, tenant, rest);
        assert(tenant_env(next, tenant) == tenant_env(tenants, tenant));
    }
}

} // verus!
