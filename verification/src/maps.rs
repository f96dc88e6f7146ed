use vstd::prelude::*;

use crate::config::{UserConf, UserConfView};
use crate::status::{StatusEntry, StatusEntryView};

verus! {

/// `ahash::AHashMap`, carried through the library as an opaque value.
#[verifier::external_type_specification]
#[verifier::external_body]
#[verifier::reject_recursive_types(K)]
#[verifier::reject_recursive_types(V)]
#[verifier::reject_recursive_types(S)]
pub struct ExAHashMap<K, V, S>(ahash::AHashMap<K, V, S>);

/// `ahash::AHashSet`, carried through the library as an opaque value.
#[verifier::external_type_specification]
#[verifier::external_body]
#[verifier::reject_recursive_types(T)]
#[verifier::reject_recursive_types(S)]
pub struct ExAHashSet<T, S>(ahash::AHashSet<T, S>);

/// `ahash::RandomState`, the default hasher of the two collections above.
#[verifier::external_type_specification]
#[verifier::external_body]
pub struct ExRandomState(ahash::RandomState);

/// The configuration file: account settings, keyed by an identifier of the
/// user's choice.
pub type Config = ahash::AHashMap<String, UserConf>;

/// The status file: the latest sign-in record of each account, keyed by the
/// account's login name.
pub type StatusFile = ahash::AHashMap<String, StatusEntry>;

/// What a [`Config`] holds: identifier to settings.
pub uninterp spec fn config_entries(m: Config) -> Map<Seq<char>, UserConfView>;

/// What a [`StatusFile`] holds: login name to sign-in record.
pub uninterp spec fn status_entries(m: StatusFile) -> Map<Seq<char>, StatusEntryView>;

/// What a set of names built by [`name_set_from`] holds.
pub uninterp spec fn name_set_entries(s: ahash::AHashSet<String>) -> Set<Seq<char>>;

/// The views of a list of strings.
pub open spec fn string_views(v: Seq<String>) -> Seq<Seq<char>> {
    v.map_values(|s: String| s@)
}

/// `ahash::AHashMap::new` for configurations: the new map holds nothing.
#[verifier::external_body]
pub(crate) fn config_new() -> (r: Config)
    ensures
        config_entries(r).dom().is_empty(),
{
    ahash::AHashMap::new()
}

/// `ahash::AHashMap::insert` for configurations: afterwards `key` maps to
/// `value` and every other entry is as before; the previous value of `key`,
/// if any, is handed back.
#[verifier::external_body]
pub(crate) fn config_insert(m: &mut Config, key: String, value: UserConf) -> (r: Option<UserConf>)
    ensures
        config_entries(*final(m)) == config_entries(*old(m)).insert(key@, value@),
        r is Some <==> config_entries(*old(m)).contains_key(key@),
        r matches Some(v) ==> v@ == config_entries(*old(m))[key@],
{
    m.insert(key, value)
}

/// `IntoIterator::into_iter` of `ahash::AHashMap`, collected: every entry of
/// the configuration exactly once, in an order that the hasher decides.
#[verifier::external_body]
pub(crate) fn config_into_entries(m: Config) -> (r: Vec<(String, UserConf)>)
    ensures
        r@.len() == config_entries(m).dom().len(),
        forall|i: int|
            0 <= i < r@.len() ==> #[trigger] config_entries(m).contains_key(r@[i].0@)
                && config_entries(m)[r@[i].0@] == r@[i].1@,
        forall|i: int, j: int| 0 <= i < j < r@.len() ==> r@[i].0@ != r@[j].0@,
        forall|k: Seq<char>|
            #[trigger] config_entries(m).contains_key(k) ==> exists|i: int|
                0 <= i < r@.len() && r@[i].0@ == k,
{
    m.into_iter().collect()
}

/// `ahash::AHashMap::new` for status files: the new map holds nothing.
#[verifier::external_body]
pub(crate) fn status_new() -> (r: StatusFile)
    ensures
        status_entries(r).dom().is_empty(),
{
    ahash::AHashMap::new()
}

/// `ahash::AHashMap::get` for status files: the record of `key`, if any.
#[verifier::external_body]
pub(crate) fn status_get<'a>(m: &'a StatusFile, key: &str) -> (r: Option<&'a StatusEntry>)
    ensures
        r is Some <==> status_entries(*m).contains_key(key@),
        r matches Some(e) ==> e@ == status_entries(*m)[key@],
{
    m.get(key)
}

/// `ahash::AHashMap::insert` for status files: afterwards `key` maps to
/// `value` and every other record is as before.
#[verifier::external_body]
pub(crate) fn status_insert(m: &mut StatusFile, key: String, value: StatusEntry) -> (r: Option<StatusEntry>)
    ensures
        status_entries(*final(m)) == status_entries(*old(m)).insert(key@, value@),
        r is Some <==> status_entries(*old(m)).contains_key(key@),
        r matches Some(v) ==> v@ == status_entries(*old(m))[key@],
{
    m.insert(key, value)
}

/// `ahash::AHashMap::remove` for status files: afterwards `key` has no
/// record and every other record is as before.
#[verifier::external_body]
pub(crate) fn status_remove(m: &mut StatusFile, key: &str) -> (r: Option<StatusEntry>)
    ensures
        status_entries(*final(m)) == status_entries(*old(m)).remove(key@),
        r is Some <==> status_entries(*old(m)).contains_key(key@),
        r matches Some(v) ==> v@ == status_entries(*old(m))[key@],
{
    m.remove(key)
}

/// `HashMap::keys` (through `Deref`) of a status file, cloned and collected:
/// every login name that has a record, each exactly once, in an order that
/// the hasher decides.
#[verifier::external_body]
pub(crate) fn status_keys(m: &StatusFile) -> (r: Vec<String>)
    ensures
        r@.len() == status_entries(*m).dom().len(),
        string_views(r@).no_duplicates(),
        string_views(r@).to_set() == status_entries(*m).dom(),
{
    m.keys().cloned().collect()
}

/// `FromIterator::from_iter` of `ahash::AHashSet`: the set of the given names.
#[verifier::external_body]
pub(crate) fn name_set_from(names: Vec<String>) -> (r: ahash::AHashSet<String>)
    ensures
        name_set_entries(r) == string_views(names@).to_set(),
{
    names.into_iter().collect()
}

/// `HashSet::contains` (through `Deref`) of a set of names.
#[verifier::external_body]
pub(crate) fn name_set_contains(s: &ahash::AHashSet<String>, name: &str) -> (r: bool)
    ensures
        r == name_set_entries(*s).contains(name@),
{
    s.contains(name)
}

} // verus!
