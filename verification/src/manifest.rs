//! The fleet manifest: the funding wallet and the numbered worker wallets,
//! with the key file paths relative to the fleet directory.
use vstd::prelude::*;
use std::path::PathBuf;
use crate::distribution::{encode_pubkey, pubkey_to_text};
use crate::text::{
    decimal, digits_value, lemma_decimal, lemma_leading_zeros, push_decimal, string_push, zero_pad,
};

verus! {

/// A wallet of the fleet: its name, public key and key file path.
#[derive(Debug, Clone, PartialEq, Eq)]
pub struct WalletEntry {
    pub name: String,
    pub pubkey: String,
    pub keypair_path: String,
}

/// The fleet: a format version, the funding wallet and the workers.
#[derive(Debug, Clone, PartialEq, Eq)]
pub struct FleetManifest {
    pub version: u32,
    pub funding: WalletEntry,
    pub workers: Vec<WalletEntry>,
}

impl WalletEntry {
    /// A field-by-field copy.
    pub fn duplicate(&self) -> (r: Self)
        ensures
            r == *self,
    {
        WalletEntry {
            name: self.name.clone(),
            pubkey: self.pubkey.clone(),
            keypair_path: self.keypair_path.clone(),
        }
    }
}

/// The name of worker `index`: `worker-` and the index padded to three digits.
pub open spec fn worker_name_spec(index: nat) -> Seq<char> {
    "worker-"@ + zero_pad(decimal(index), 3)
}

/// The key file path of the worker named `name`, relative to the fleet directory.
pub open spec fn worker_keypair_path(name: Seq<char>) -> Seq<char> {
    "workers/"@ + name + ".json"@
}

/// Whether `e` is the entry `build_manifest` makes for worker `index`: its
/// name, its key file under `workers/`, and no public key yet.
pub open spec fn is_worker_entry(e: WalletEntry, index: nat, pubkey: Seq<char>) -> bool {
    &&& e.name@ == worker_name_spec(index)
    &&& e.keypair_path@ == worker_keypair_path(worker_name_spec(index))
    &&& e.pubkey@ == pubkey
}

/// Whether `m` is the manifest for `count` workers whose public keys are
/// `funding` and `workers` (empty texts before keys are generated).
pub open spec fn is_manifest(
    m: FleetManifest,
    funding: Seq<char>,
    workers: Seq<Seq<char>>,
) -> bool {
    &&& m.version == 1
    &&& m.funding.name@ == "funding"@
    &&& m.funding.keypair_path@ == "funding.json"@
    &&& m.funding.pubkey@ == funding
    &&& m.workers@.len() == workers.len()
    &&& forall|i: int|
        0 <= i < workers.len() ==> is_worker_entry(#[trigger] m.workers@[i], (i + 1) as nat, workers[i])
}

/// The shortest decimal form of `n` has two digits from 10 and three from 100.
proof fn lemma_decimal_width(n: nat)
    ensures
        n < 10 ==> decimal(n).len() == 1,
        10 <= n < 100 ==> decimal(n).len() == 2,
        n >= 100 ==> decimal(n).len() >= 3,
{
    if n >= 10 {
        lemma_decimal(n / 10);
        if n / 10 >= 10 {
            assert(decimal(n / 10) == decimal(n / 10 / 10).push(
                crate::text::digit_char(n / 10 % 10),
            ));
            lemma_decimal(n / 10 / 10);
        } else {
            assert(decimal(n / 10).len() == 1);
        }
    }
}

/// Different worker indexes give different worker names.
pub proof fn lemma_worker_names_distinct(i: nat, j: nat)
    requires
        i != j,
    ensures
        worker_name_spec(i) != worker_name_spec(j),
{
    lemma_padded_value(i);
    lemma_padded_value(j);
    let p = "worker-"@;
    if worker_name_spec(i) == worker_name_spec(j) {
        assert((p + zero_pad(decimal(i), 3)).skip(p.len() as int) =~= zero_pad(decimal(i), 3));
        assert((p + zero_pad(decimal(j), 3)).skip(p.len() as int) =~= zero_pad(decimal(j), 3));
    }
}

/// Zero padding keeps the value of a number's digits.
proof fn lemma_padded_value(n: nat)
    ensures
        digits_value(zero_pad(decimal(n), 3)) == n,
{
    lemma_decimal(n);
    let d = decimal(n);
    if d.len() < 3 {
        lemma_leading_zeros((3 - d.len()) as nat, d);
    }
}

/// The manifest names each worker once.
pub proof fn lemma_manifest_names_distinct(
    m: FleetManifest,
    funding: Seq<char>,
    workers: Seq<Seq<char>>,
)
    requires
        is_manifest(m, funding, workers),
    ensures
        forall|i: int, j: int|
            0 <= i < j < m.workers@.len() ==> (#[trigger] m.workers@[i]).name@ != (
            #[trigger] m.workers@[j]).name@,
{
    assert forall|i: int, j: int| 0 <= i < j < m.workers@.len() implies (
    #[trigger] m.workers@[i]).name@ != (#[trigger] m.workers@[j]).name@ by {
        assert(is_worker_entry(m.workers@[i], (i + 1) as nat, workers[i]));
        assert(is_worker_entry(m.workers@[j], (j + 1) as nat, workers[j]));
        lemma_worker_names_distinct((i + 1) as nat, (j + 1) as nat);
    }
}

/// The name of worker `index`, zero-padded to three digits: `worker-007`.
pub fn worker_name(index: usize) -> (name: String)
    ensures
        name@ == worker_name_spec(index as nat),
{
    let mut name = String::from_str("worker-");
    proof {
        lemma_decimal_width(index as nat);
    }
    if index < 10 {
        string_push(&mut name, '0');
        string_push(&mut name, '0');
    } else if index < 100 {
        string_push(&mut name, '0');
    }
    let ghost before = name@;
    push_decimal(&mut name, index as u128);
    proof {
        let d = decimal(index as nat);
        if index < 10 {
            assert(zero_pad(d, 3) =~= seq!['0', '0'] + d);
        } else if index < 100 {
            assert(zero_pad(d, 3) =~= seq!['0'] + d);
        } else {
            assert(zero_pad(d, 3) == d);
        }
        assert(name@ =~= "worker-"@ + zero_pad(d, 3));
    }
    name
}

/// The entry for worker `index` with the given public key.
fn worker_entry(index: usize, pubkey: String) -> (e: WalletEntry)
    ensures
        is_worker_entry(e, index as nat, pubkey@),
{
    let name = worker_name(index);
    let mut keypair_path = String::from_str("workers/");
    keypair_path.append(name.as_str());
    keypair_path.append(".json");
    WalletEntry { name, pubkey, keypair_path }
}

/// The manifest for `worker_count` new workers, named `worker-001` onwards,
/// before any public key is known.
pub fn build_manifest(worker_count: usize) -> (m: FleetManifest)
    ensures
        is_manifest(m, Seq::empty(), Seq::new(worker_count as nat, |i: int| Seq::<char>::empty())),
{
    let mut workers: Vec<WalletEntry> = Vec::new();
    let mut i: usize = 0;
    while i < worker_count
        invariant
            i <= worker_count,
            workers@.len() == i,
            forall|j: int|
                0 <= j < i ==> is_worker_entry(#[trigger] workers@[j], (j + 1) as nat, Seq::empty()),
        decreases worker_count - i,
    {
        workers.push(worker_entry(i + 1, String::new()));
        i = i + 1;
    }
    FleetManifest {
        version: 1,
        funding: WalletEntry {
            name: String::from_str("funding"),
            pubkey: String::new(),
            keypair_path: String::from_str("funding.json"),
        },
        workers,
    }
}

/// The manifest for new workers with their public keys attached in order:
/// the first key to `worker-001`, and so on.
pub fn build_manifest_with_pubkeys(funding_pubkey: String, worker_pubkeys: Vec<String>) -> (r:
    Result<FleetManifest, String>)
    ensures
        r matches Ok(m) && is_manifest(
            m,
            funding_pubkey@,
            worker_pubkeys@.map_values(|k: String| k@),
        ),
{
    let mut manifest = build_manifest(worker_pubkeys.len());
    manifest.funding.pubkey = funding_pubkey;
    let mut workers: Vec<WalletEntry> = Vec::new();
    let mut i: usize = 0;
    while i < worker_pubkeys.len()
        invariant
            i <= worker_pubkeys@.len(),
            manifest.workers@.len() == worker_pubkeys@.len(),
            forall|j: int|
                0 <= j < worker_pubkeys@.len() ==> is_worker_entry(
                    #[trigger] manifest.workers@[j],
                    (j + 1) as nat,
                    Seq::empty(),
                ),
            workers@.len() == i,
            forall|j: int|
                0 <= j < i ==> is_worker_entry(
                    #[trigger] workers@[j],
                    (j + 1) as nat,
                    worker_pubkeys@[j]@,
                ),
        decreases worker_pubkeys@.len() - i,
    {
        let entry = &manifest.workers[i];
        workers.push(
            WalletEntry {
                name: entry.name.clone(),
                pubkey: worker_pubkeys[i].clone(),
                keypair_path: entry.keypair_path.clone(),
            },
        );
        i = i + 1;
    }
    manifest.workers = workers;
    Ok(manifest)
}

/// The manifest for newly generated keys: the funding key and the worker
/// keys, in order, written as base58 text.
pub fn manifest_for_keys(funding_key: [u8; 32], worker_keys: Vec<[u8; 32]>) -> (m: FleetManifest)
    ensures
        is_manifest(
            m,
            pubkey_to_text(funding_key@),
            worker_keys@.map_values(|k: [u8; 32]| pubkey_to_text(k@)),
        ),
{
    let funding = encode_pubkey(funding_key);
    let mut texts: Vec<String> = Vec::new();
    let mut i: usize = 0;
    while i < worker_keys.len()
        invariant
            i <= worker_keys@.len(),
            texts@.len() == i,
            forall|j: int| 0 <= j < i ==> (#[trigger] texts@[j])@ == pubkey_to_text(worker_keys@[j]@),
        decreases worker_keys@.len() - i,
    {
        texts.push(encode_pubkey(worker_keys[i]));
        i = i + 1;
    }
    let ghost expected = worker_keys@.map_values(|k: [u8; 32]| pubkey_to_text(k@));
    assert(texts@.map_values(|k: String| k@) =~= expected);
    match build_manifest_with_pubkeys(funding, texts) {
        Ok(m) => m,
        Err(_) => {
            proof {
                assert(false);
            }
            build_manifest(0)
        },
    }
}

#[verifier::external_type_specification]
#[verifier::external_body]
pub struct ExPathBuf(PathBuf);

/// The path `std::path::PathBuf::from` makes of `text`.
pub uninterp spec fn path_from_text(text: Seq<char>) -> PathBuf;

/// Makes a path with `std::path::PathBuf::from`. Trusted: the path is the
/// named function of the text.
#[verifier::external_body]
fn path_from(text: &str) -> (p: PathBuf)
    ensures
        p == path_from_text(text@),
{
    PathBuf::from(text)
}

/// The fleet directory used when none is given: `.local/equium-fleet`.
pub fn default_fleet_dir() -> (p: PathBuf)
    ensures
        p == path_from_text(".local/equium-fleet"@),
{
    path_from(".local/equium-fleet")
}

} // verus!
