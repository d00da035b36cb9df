//! Database status, intended usage, and signature policy.
use vstd::prelude::*;

use crate::desc::{append_chars, chars_of, string_of};

verus! {

/// A package held by a database.
pub trait Package {
    /// The package's name.
    fn name(&self) -> &str;
}

/// Whether a database is present, and if so whether it is consistent.
#[derive(Debug, Clone, Copy, PartialEq, Eq, Hash, PartialOrd, Ord)]
pub enum DbStatus {
    /// The database directory is not present.
    Missing,
    /// The database directory is present.
    Exists {
        /// Whether the database is consistent.
        valid: bool,
    },
}

/// What a database is to be used for: a set of usage bits.
#[derive(Debug, Clone, Copy, PartialEq, Eq, Hash)]
pub struct DbUsage {
    bits: u32,
}

/// The bits that name a usage.
pub const USAGE_MASK: u32 = 15;

impl DbUsage {
    /// Synchronise the database with its remote source.
    pub fn sync() -> (r: DbUsage)
        ensures
            r.spec_bits() == 1,
    {
        DbUsage { bits: 1 }
    }

    /// Search the database.
    pub fn search() -> (r: DbUsage)
        ensures
            r.spec_bits() == 2,
    {
        DbUsage { bits: 2 }
    }

    /// Install packages from the database.
    pub fn install() -> (r: DbUsage)
        ensures
            r.spec_bits() == 4,
    {
        DbUsage { bits: 4 }
    }

    /// Upgrade packages from the database.
    pub fn upgrade() -> (r: DbUsage)
        ensures
            r.spec_bits() == 8,
    {
        DbUsage { bits: 8 }
    }

    /// Every usage.
    pub fn all() -> (r: DbUsage)
        ensures
            r.spec_bits() == USAGE_MASK,
    {
        DbUsage { bits: USAGE_MASK }
    }

    pub closed spec fn spec_bits(self) -> u32 {
        self.bits
    }

    /// The raw bits.
    pub fn bits(&self) -> (r: u32)
        ensures
            r == self.spec_bits(),
    {
        self.bits
    }

    /// The usage set with the given bits; bits that name no usage are dropped.
    pub fn from_bits_truncate(bits: u32) -> (r: DbUsage)
        ensures
            r.spec_bits() == bits & USAGE_MASK,
    {
        DbUsage { bits: bits & USAGE_MASK }
    }

    /// The empty usage set.
    pub fn empty() -> (r: DbUsage)
        ensures
            r.spec_bits() == 0,
    {
        DbUsage { bits: 0 }
    }

    /// Every usage in `self` or in `other`.
    pub fn union(self, other: DbUsage) -> (r: DbUsage)
        ensures
            r.spec_bits() == self.spec_bits() | other.spec_bits(),
    {
        DbUsage { bits: self.bits | other.bits }
    }

    /// Every usage in both `self` and `other`.
    pub fn intersection(self, other: DbUsage) -> (r: DbUsage)
        ensures
            r.spec_bits() == self.spec_bits() & other.spec_bits(),
    {
        DbUsage { bits: self.bits & other.bits }
    }

    /// Whether every usage in `other` is in `self`.
    pub fn contains(self, other: DbUsage) -> (r: bool)
        ensures
            r == (self.spec_bits() & other.spec_bits() == other.spec_bits()),
    {
        self.bits & other.bits == other.bits
    }

    /// Whether the set holds no usage.
    pub fn is_empty(self) -> (r: bool)
        ensures
            r == (self.spec_bits() == 0),
    {
        self.bits == 0
    }
}

impl Default for DbUsage {
    fn default() -> (r: DbUsage)
        ensures
            r.spec_bits() == USAGE_MASK,
    {
        DbUsage::all()
    }
}

/// The all-usages set holds each single usage, is their union, and is the
/// default usage set.
pub proof fn lemma_all_usages(all: DbUsage, sync: DbUsage, search: DbUsage, install: DbUsage, upgrade: DbUsage)
    requires
        all.spec_bits() == USAGE_MASK,
        sync.spec_bits() == 1,
        search.spec_bits() == 2,
        install.spec_bits() == 4,
        upgrade.spec_bits() == 8,
    ensures
        all.spec_bits() & sync.spec_bits() == sync.spec_bits(),
        all.spec_bits() & search.spec_bits() == search.spec_bits(),
        all.spec_bits() & install.spec_bits() == install.spec_bits(),
        all.spec_bits() & upgrade.spec_bits() == upgrade.spec_bits(),
        all.spec_bits() == (sync.spec_bits() | search.spec_bits() | install.spec_bits()
            | upgrade.spec_bits()),
{
    assert(15u32 & 1u32 == 1u32) by (bit_vector);
    assert(15u32 & 2u32 == 2u32) by (bit_vector);
    assert(15u32 & 4u32 == 4u32) by (bit_vector);
    assert(15u32 & 8u32 == 8u32) by (bit_vector);
    assert(1u32 | 2u32 | 4u32 | 8u32 == 15u32) by (bit_vector);
}

/// The trust level that signatures must match.
#[derive(Debug, Clone, Copy, PartialEq, Eq, Hash, PartialOrd, Ord)]
pub enum SignatureLevel {
    /// Inherit the level required by the parent configuration.
    Inherit,
    Optional,
    MarginalOk,
    UnknownOk,
}

impl Default for SignatureLevel {
    fn default() -> (r: SignatureLevel)
        ensures
            r == SignatureLevel::Inherit,
    {
        SignatureLevel::Inherit
    }
}


/// The name of the directory that holds the sync databases.
pub const SYNC_DB_DIR: &'static str = "sync";

/// The default extension of a sync database file.
pub const DEFAULT_SYNC_DB_EXT: &'static str = "db";

/// The name of the local database.
pub const LOCAL_DB_NAME: &'static str = "local";

/// Whether a text can name a sync database: it is not empty and holds no `/`.
pub open spec fn valid_db_name(s: Seq<char>) -> bool {
    s.len() > 0 && forall|i: int| 0 <= i < s.len() ==> s[i] != '/'
}

/// The path of a sync database file under the database root `base`.
pub open spec fn db_path_of(base: Seq<char>, name: Seq<char>, ext: Seq<char>) -> Seq<char> {
    let root = if base.len() > 0 && base.last() == '/' {
        base
    } else {
        base.push('/')
    };
    root + "sync/"@ + name + "."@ + ext
}

/// The name of a sync database.
#[derive(Debug, Clone)]
pub struct SyncDbName {
    name: String,
}

impl SyncDbName {
    pub closed spec fn spec_name(&self) -> Seq<char> {
        self.name@
    }

    /// The name `name`, where it can name a sync database.
    pub fn new(name: &str) -> (r: Option<SyncDbName>)
        ensures
            valid_db_name(name@) ==> (r matches Some(n) && n.spec_name() == name@),
            !valid_db_name(name@) ==> r is None,
    {
        let c = chars_of(name);
        if c.len() == 0 {
            return None;
        }
        let mut i: usize = 0;
        while i < c.len()
            invariant
                0 <= i <= c@.len(),
                c@ == name@,
                forall|j: int| 0 <= j < i ==> c@[j] != '/',
            decreases c@.len() - i,
        {
            if c[i] == '/' {
                return None;
            }
            i = i + 1;
        }
        Some(SyncDbName { name: string_of(&c) })
    }

    /// The name as text.
    pub fn as_str(&self) -> (r: &str)
        ensures
            r@ == self.spec_name(),
    {
        self.name.as_str()
    }

    /// The path of this database's file under the database root `base`,
    /// with extension `ext`: `<base>/sync/<name>.<ext>`.
    pub fn path(&self, base: &str, ext: &str) -> (r: String)
        ensures
            r@ == db_path_of(base@, self.spec_name(), ext@),
    {
        let mut v = chars_of(base);
        if v.len() == 0 || v[v.len() - 1] != '/' {
            v.push('/');
        }
        append_chars(&mut v, &chars_of(SYNC_DB_DIR));
        v.push('/');
        append_chars(&mut v, &chars_of(self.name.as_str()));
        v.push('.');
        append_chars(&mut v, &chars_of(ext));
        proof {
            reveal_strlit("sync");
            reveal_strlit("sync/");
            reveal_strlit(".");
        }
        assert(v@ =~= db_path_of(base@, self.name@, ext@));
        string_of(&v)
    }
}

} // verus!
