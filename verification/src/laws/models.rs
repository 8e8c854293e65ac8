//! The rules for models and the list that comes of them.

use vstd::prelude::*;

use crate::config::{
    config_file, entry_position, is_default_config, loads_as, with_entry, Config, ConfigRead, EntryView, RuleView,
};
use crate::config_cache::config_given;
use crate::models::{
    fetch_error, last_rule, lowered_entries, lowered_models, merged, offered, FetchPurpose, ModelView,
};
use crate::text::lowercase;

verus! {

/// Whether no entry is for `name`.
pub open spec fn names_none(entries: Seq<EntryView>, name: Seq<char>) -> bool {
    forall|i: int| 0 <= i < entries.len() ==> (#[trigger] entries[i]).name != name
}

proof fn lemma_last_rule_is(a: Seq<EntryView>, entry: EntryView, b: Seq<EntryView>)
    requires
        names_none(b, entry.name),
    ensures
        last_rule(a + seq![entry] + b, entry.name) == Some(entry.rule),
    decreases b.len(),
{
    let all = a + seq![entry] + b;
    if b.len() == 0 {
        assert(all.last() == entry);
    } else {
        assert(b[b.len() - 1].name != entry.name);
        assert(all.last() == b[b.len() - 1]);
        assert(all.drop_last() =~= a + seq![entry] + b.drop_last());
        assert forall|i: int| 0 <= i < b.drop_last().len() implies (#[trigger] b.drop_last()[i]).name
            != entry.name by {
            assert(b.drop_last()[i] == b[i]);
        }
        lemma_last_rule_is(a, entry, b.drop_last());
    }
}

proof fn lemma_no_rule(entries: Seq<EntryView>, name: Seq<char>)
    requires
        names_none(entries, name),
    ensures
        last_rule(entries, name) is None,
    decreases entries.len(),
{
    if entries.len() > 0 {
        assert(entries[entries.len() - 1].name != name);
        assert forall|i: int| 0 <= i < entries.drop_last().len() implies (
        #[trigger] entries.drop_last()[i]).name != name by {
            assert(entries.drop_last()[i] == entries[i]);
        }
        lemma_no_rule(entries.drop_last(), name);
    }
}

/// A model is left out exactly where the last rule for it turns it off. Else it is
/// offered with all that it is, under the name that the rule maps it to, or its own where
/// there is no rule or the rule maps to none.
pub proof fn law_rule_decides(
    model: ModelView,
    a: Seq<EntryView>,
    rule: RuleView,
    b: Seq<EntryView>,
)
    ensures
        names_none(b, model.id) ==> {
            let offer = offered(model, a + seq![EntryView { name: model.id, rule }] + b);
            &&& offer is None <==> rule.enable == Some(false)
            &&& offer matches Some(shown) ==> {
                &&& rule.mapping is Some ==> shown.id == rule.mapping->0
                &&& rule.mapping is None ==> shown.id == model.id
                &&& shown.object == model.object
                &&& shown.created == model.created
                &&& shown.owned_by == model.owned_by
            }
        },
        names_none(a, model.id) ==> offered(model, a) == Some(model),
{
    if names_none(b, model.id) {
        lemma_last_rule_is(a, EntryView { name: model.id, rule }, b);
    }
    if names_none(a, model.id) {
        lemma_no_rule(a, model.id);
    }
}

/// The list is made model by model: each that is offered is added behind those before it.
pub proof fn law_list_is_made_in_order(
    models: Seq<ModelView>,
    model: ModelView,
    entries: Seq<EntryView>,
)
    ensures
        merged(Seq::<ModelView>::empty(), entries) == Seq::<ModelView>::empty(),
        offered(model, entries) is None ==> merged(models.push(model), entries) == merged(
            models,
            entries,
        ),
        offered(model, entries) matches Some(shown) ==> merged(models.push(model), entries)
            == merged(models, entries).push(shown),
{
    assert(models.push(model).drop_last() =~= models);
}

/// Only the names of models are lowered, each in its place.
pub proof fn law_names_of_models_are_lowered(models: Seq<ModelView>, i: int)
    ensures
        lowered_models(models).len() == models.len(),
        0 <= i < models.len() ==> {
            let lowered = lowered_models(models)[i];
            &&& lowered.id == lowercase(models[i].id)
            &&& lowered.object == models[i].object
            &&& lowered.created == models[i].created
            &&& lowered.owned_by == models[i].owned_by
        },
{
}

/// Of the rules only the names are lowered, of the model and of what it is mapped to,
/// each in its place.
pub proof fn law_names_of_rules_are_lowered(entries: Seq<EntryView>, i: int)
    ensures
        lowered_entries(entries).len() == entries.len(),
        0 <= i < entries.len() ==> {
            let lowered = lowered_entries(entries)[i];
            &&& lowered.name == lowercase(entries[i].name)
            &&& lowered.rule.enable == entries[i].rule.enable
            &&& entries[i].rule.mapping is None ==> lowered.rule.mapping is None
            &&& entries[i].rule.mapping is Some ==> lowered.rule.mapping == Some(
                lowercase(entries[i].rule.mapping->0),
            )
        },
{
}

/// What a client is told where the list cannot be fetched ends with the reason, which
/// stands alone for the unfiltered list.
pub proof fn law_fetch_error_gives_the_reason(reason: Seq<char>)
    ensures
        fetch_error(FetchPurpose::Unfiltered, reason) == reason,
        fetch_error(FetchPurpose::Merge, reason) == "未能檢索模型列表以填充快取："@ + reason,
        fetch_error(FetchPurpose::Direct, reason) == "無法直接從API獲取模型："@ + reason,
{
}

proof fn lemma_position(entries: Seq<EntryView>, name: Seq<char>, a: Seq<EntryView>)
    requires
        names_none(a, name),
        a.len() <= entries.len(),
        entries.take(a.len() as int) == a,
        a.len() < entries.len() ==> entries[a.len() as int].name == name,
    ensures
        entry_position(entries, name) == a.len(),
    decreases entries.len(),
{
    if a.len() > 0 {
        assert(a[0].name != name);
        assert(entries.take(a.len() as int)[0] == entries[0]);
        let rest = entries.drop_first();
        let front = a.drop_first();
        assert(rest.take(front.len() as int) =~= front);
        assert forall|i: int| 0 <= i < front.len() implies (#[trigger] front[i]).name != name by {
            assert(front[i] == a[i + 1]);
        }
        lemma_position(rest, name, front);
    }
}

/// A rule takes the place of an earlier one for its model, and stands behind all others
/// where there is none.
pub proof fn law_rule_takes_its_place(
    a: Seq<EntryView>,
    old_rule: RuleView,
    b: Seq<EntryView>,
    name: Seq<char>,
    rule: RuleView,
)
    requires
        names_none(a, name),
    ensures
        with_entry(a, name, rule) == a + seq![EntryView { name, rule }],
        with_entry(a + seq![EntryView { name, rule: old_rule }] + b, name, rule) == a
            + seq![EntryView { name, rule }] + b,
{
    let all = a + seq![EntryView { name, rule: old_rule }] + b;
    assert(a.take(a.len() as int) =~= a);
    lemma_position(a, name, a);
    assert(with_entry(a, name, rule) =~= a + seq![EntryView { name, rule }]);
    assert(all.take(a.len() as int) =~= a);
    lemma_position(all, name, a);
    assert(with_entry(all, name, rule) =~= a + seq![EntryView { name, rule }] + b);
}

/// The rules apply only where the configuration says so, and that of a missing file does
/// not and has none.
pub proof fn law_when_rules_apply(config: Config)
    ensures
        config.applies() <==> config.enable_setting() == Some(true),
        is_default_config(config) <==> config.enable_setting() == Some(false)
            && config.entries().len() == 0,
{
    assert(config.entries().len() == 0 ==> config.entries() =~= Seq::empty());
}

/// What comes of a read of the file: its configuration as it is, that of a missing file
/// where there is none, and else what is wrong with it, with the reason at the end.
pub proof fn law_read_of_the_file(
    config: Config,
    reason: String,
    loaded: Config,
    message: String,
)
    ensures
        loads_as(ConfigRead::Parsed(config), Ok(loaded)) <==> loaded == config,
        loads_as(ConfigRead::Missing, Ok(loaded)) <==> loaded.enable_setting() == Some(false)
            && loaded.entries().len() == 0,
        loads_as(ConfigRead::Malformed(reason), Err(message)) <==> message@
            == "解析 "@ + "models.yaml"@ + " 失敗: "@ + reason@,
        loads_as(ConfigRead::Unreadable(reason), Err(message)) <==> message@
            == "讀取 "@ + "models.yaml"@ + " 失敗: "@ + reason@,
        !loads_as(ConfigRead::Parsed(config), Err(message)),
        !loads_as(ConfigRead::Missing, Err(message)),
        !loads_as(ConfigRead::Malformed(reason), Ok(loaded)),
        !loads_as(ConfigRead::Unreadable(reason), Ok(loaded)),
{
    law_when_rules_apply(loaded);
}

/// What the cache holds for the file is given and stays. Else a new cache gives what the
/// file holds and keeps it; a file that cannot be read gives a configuration without
/// rules, and the cache stays as it was.
pub proof fn law_cached_configuration(
    before: Map<Seq<char>, Config>,
    limit: nat,
    read: ConfigRead,
    after: Map<Seq<char>, Config>,
    given: Config,
)
    requires
        config_given(before, limit, read, after, given),
    ensures
        config_file() == "models.yaml"@,
        before.contains_key("models.yaml"@) ==> given == before["models.yaml"@] && after == before,
        !before.contains_key("models.yaml"@) ==> {
            &&& read matches ConfigRead::Parsed(config) ==> given == config
            &&& read is Parsed || read is Missing ==> (before.dom() == Set::<Seq<char>>::empty()
                && limit > 0 ==> after.contains_key("models.yaml"@) && after["models.yaml"@]
                == given && after.dom() == set!["models.yaml"@])
            &&& read is Parsed || read is Missing ==> after.submap_of(
                before.insert("models.yaml"@, given),
            )
            &&& read is Missing || read is Malformed || read is Unreadable
                ==> given.enable_setting() == Some(false) && given.entries().len() == 0
            &&& read is Malformed || read is Unreadable ==> after == before
        },
{
    if before.dom() == Set::<Seq<char>>::empty() {
        assert(before.insert("models.yaml"@, given).dom() =~= set!["models.yaml"@]);
    }
}

} // verus!
