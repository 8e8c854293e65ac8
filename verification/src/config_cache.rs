//! The configuration, read from its file once and kept.

use std::sync::Arc;

use quick_cache::sync::Cache;
use vstd::prelude::*;

use crate::config::{config_file, default_config, is_default_config, load_config_from_yaml, loads_as, Config, ConfigRead};

verus! {

/// `quick_cache::sync::Cache`, which is opaque here.
#[verifier::external_type_specification]
#[verifier::external_body]
#[verifier::reject_recursive_types(Key)]
#[verifier::reject_recursive_types(Val)]
#[verifier::reject_recursive_types(We)]
#[verifier::reject_recursive_types(B)]
#[verifier::reject_recursive_types(L)]
pub struct ExCache<Key, Val, We, B, L>(quick_cache::sync::Cache<Key, Val, We, B, L>);

/// `quick_cache::UnitWeighter`, by which each item counts as one.
#[verifier::external_type_specification]
#[verifier::external_body]
pub struct ExUnitWeighter(quick_cache::UnitWeighter);

/// `quick_cache::DefaultHashBuilder`, which is opaque here.
#[verifier::external_type_specification]
#[verifier::external_body]
pub struct ExDefaultHashBuilder(quick_cache::DefaultHashBuilder);

/// `quick_cache::sync::DefaultLifecycle`, which is opaque here.
#[verifier::external_type_specification]
#[verifier::external_body]
#[verifier::reject_recursive_types(Key)]
#[verifier::reject_recursive_types(Val)]
pub struct ExDefaultLifecycle<Key, Val>(quick_cache::sync::DefaultLifecycle<Key, Val>);

/// What a cache of configurations holds.
pub uninterp spec fn cached(cache: Cache<String, Arc<Config>>) -> Map<Seq<char>, Config>;

/// How many configurations a cache is made for.
pub uninterp spec fn item_limit(cache: Cache<String, Arc<Config>>) -> nat;

/// `quick_cache::sync::Cache::new` makes a cache that holds nothing.
#[verifier::external_body]
fn empty_cache(limit: usize) -> (r: Cache<String, Arc<Config>>)
    ensures
        cached(r).dom() == Set::<Seq<char>>::empty(),
        item_limit(r) == limit,
{
    Cache::new(limit)
}

/// `quick_cache::sync::Cache::get_or_insert_with` gives what is held under `key`.
/// Where there is nothing, it gives what `load` gives, and holds that from then on
/// if it is no error. It may let go of others for it, or refuse it, but not where it
/// held nothing and was made for at least one item.
#[verifier::external_body]
fn held_or_loaded<F: FnOnce() -> Result<Arc<Config>, String>>(
    cache: &mut Cache<String, Arc<Config>>,
    key: &str,
    load: F,
) -> (r: Result<Arc<Config>, String>)
    requires
        load.requires(()),
    ensures
        item_limit(*final(cache)) == item_limit(*old(cache)),
        cached(*old(cache)).contains_key(key@) ==> (r matches Ok(config) && *config == cached(
            *old(cache),
        )[key@]),
        cached(*old(cache)).contains_key(key@) ==> cached(*final(cache)) == cached(*old(cache)),
        !cached(*old(cache)).contains_key(key@) ==> load.ensures((), r),
        r is Err ==> cached(*final(cache)) == cached(*old(cache)),
        r matches Ok(config) ==> cached(*final(cache)).submap_of(
            cached(*old(cache)).insert(key@, *config),
        ),
        r matches Ok(config) ==> cached(*old(cache)).dom() == Set::<Seq<char>>::empty()
            && item_limit(*old(cache)) > 0 ==> cached(*final(cache)) == cached(
            *old(cache),
        ).insert(key@, *config),
{
    cache.get_or_insert_with(key, load)
}

/// A cache for the configuration, which holds nothing yet.
pub fn new_config_cache() -> (r: Cache<String, Arc<Config>>)
    ensures
        cached(r).dom() == Set::<Seq<char>>::empty(),
        item_limit(r) == 2,
{
    empty_cache(2)
}

/// The configuration to work with: the one that was found, or the one for a missing
/// file where that failed.
pub fn found_or_default(found: Result<Arc<Config>, String>) -> (r: Arc<Config>)
    ensures
        match found {
            Ok(config) => r == config,
            Err(_) => is_default_config(*r),
        },
{
    match found {
        Ok(config) => config,
        Err(_) => Arc::new(default_config()),
    }
}

/// Whether asking for the configuration gives `config` and leaves a cache that held
/// `before` with `after`. What is held is given. Else the file is read as `read`: what
/// it gives is held, and a read that fails gives the configuration for a missing file,
/// which is not held.
pub open spec fn config_given(
    before: Map<Seq<char>, Config>,
    limit: nat,
    read: ConfigRead,
    after: Map<Seq<char>, Config>,
    config: Config,
) -> bool {
    if before.contains_key(config_file()) {
        config == before[config_file()] && after == before
    } else if read is Malformed || read is Unreadable {
        is_default_config(config) && after == before
    } else {
        &&& loads_as(read, Ok(config))
        &&& after.submap_of(before.insert(config_file(), config))
        &&& before.dom() == Set::<Seq<char>>::empty() && limit > 0 ==> after == before.insert(
            config_file(),
            config,
        )
    }
}

/// The configuration, from the cache where it holds one, and else from the file, which
/// `read` reads.
pub fn get_cached_config<F: FnOnce() -> ConfigRead>(
    cache: &mut Cache<String, Arc<Config>>,
    read: F,
) -> (r: Arc<Config>)
    requires
        read.requires(()),
    ensures
        item_limit(*final(cache)) == item_limit(*old(cache)),
        cached(*old(cache)).contains_key(config_file()) ==> config_given(
            cached(*old(cache)),
            item_limit(*old(cache)),
            ConfigRead::Missing,
            cached(*final(cache)),
            *r,
        ),
        !cached(*old(cache)).contains_key(config_file()) ==> exists|outcome: ConfigRead|
            #[trigger] read.ensures((), outcome) && config_given(
                cached(*old(cache)),
                item_limit(*old(cache)),
                outcome,
                cached(*final(cache)),
                *r,
            ),
{
    let load = || -> (found: Result<Arc<Config>, String>)
        requires
            read.requires(()),
        ensures
            exists|outcome: ConfigRead| #[trigger] read.ensures((), outcome) && match found {
                Ok(config) => loads_as(outcome, Ok(*config)),
                Err(message) => loads_as(outcome, Err(message)),
            },
        {
            match load_config_from_yaml(read()) {
                Ok(config) => Ok(Arc::new(config)),
                Err(message) => Err(message),
            }
        };
    let found = held_or_loaded(cache, "models.yaml", load);
    found_or_default(found)
}

/// The file is read once: the configuration that a new cache gets from it is given
/// again, whatever the file says by then.
pub proof fn law_loaded_config_is_kept(
    before: Map<Seq<char>, Config>,
    limit: nat,
    first: ConfigRead,
    between: Map<Seq<char>, Config>,
    given: Config,
    second: ConfigRead,
    after: Map<Seq<char>, Config>,
    again: Config,
)
    requires
        before.dom() == Set::<Seq<char>>::empty(),
        limit > 0,
        first is Missing || first is Parsed,
        config_given(before, limit, first, between, given),
        config_given(between, limit, second, after, again),
    ensures
        again == given,
        after == between,
{
    assert(!before.contains_key(config_file()));
}

/// A read that failed is forgotten: the next one decides as if it were the first.
pub proof fn law_failed_read_is_forgotten(
    before: Map<Seq<char>, Config>,
    limit: nat,
    first: ConfigRead,
    between: Map<Seq<char>, Config>,
    given: Config,
    second: ConfigRead,
    after: Map<Seq<char>, Config>,
    again: Config,
)
    requires
        !before.contains_key(config_file()),
        first is Malformed || first is Unreadable,
        config_given(before, limit, first, between, given),
    ensures
        is_default_config(given),
        config_given(between, limit, second, after, again) <==> config_given(
            before,
            limit,
            second,
            after,
            again,
        ),
{
}

} // verus!
