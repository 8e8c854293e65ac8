//! The list of models that is offered to clients.

use vstd::prelude::*;
use vstd::string::StringExecFns;

use crate::config::{Config, EntryView, ModelConfig, ModelEntry, RuleView};
use crate::errors::{message_reply, message_reply_view, ErrorReply};
use crate::text::{lowercase, same};

verus! {

/// A model that the service has.
#[derive(Clone, Debug, PartialEq, Eq)]
pub struct ModelInfo {
    pub id: String,
    pub object: String,
    pub created: i64,
    pub owned_by: String,
}

/// The contents of a `ModelInfo`.
#[verifier::ext_equal]
pub struct ModelView {
    pub id: Seq<char>,
    pub object: Seq<char>,
    pub created: i64,
    pub owned_by: Seq<char>,
}

impl View for ModelInfo {
    type V = ModelView;

    open spec fn view(&self) -> ModelView {
        ModelView {
            id: self.id@,
            object: self.object@,
            created: self.created,
            owned_by: self.owned_by@,
        }
    }
}

/// The contents of a list of models.
pub open spec fn model_views(models: Seq<ModelInfo>) -> Seq<ModelView> {
    models.map_values(|m: ModelInfo| m@)
}

/// The contents of a list of entries.
pub open spec fn entry_views(entries: Seq<ModelEntry>) -> Seq<EntryView> {
    entries.map_values(|e: ModelEntry| e@)
}

/// A model under another name.
pub open spec fn renamed(model: ModelView, id: Seq<char>) -> ModelView {
    ModelView { id, object: model.object, created: model.created, owned_by: model.owned_by }
}

/// A model under the lowercase form of its name.
pub open spec fn lowered_model(model: ModelView) -> ModelView {
    renamed(model, lowercase(model.id))
}

/// The models under the lowercase form of their names.
pub open spec fn lowered_models(models: Seq<ModelView>) -> Seq<ModelView> {
    models.map_values(|m: ModelView| lowered_model(m))
}

/// An entry with the lowercase form of its names.
pub open spec fn lowered_entry(entry: EntryView) -> EntryView {
    EntryView {
        name: lowercase(entry.name),
        rule: RuleView {
            mapping: match entry.rule.mapping {
                Some(mapping) => Some(lowercase(mapping)),
                None => None,
            },
            enable: entry.rule.enable,
        },
    }
}

/// The entries with the lowercase form of their names.
pub open spec fn lowered_entries(entries: Seq<EntryView>) -> Seq<EntryView> {
    entries.map_values(|e: EntryView| lowered_entry(e))
}

/// The rule for `name`. Where several entries have that name, the last one counts.
pub open spec fn last_rule(entries: Seq<EntryView>, name: Seq<char>) -> Option<RuleView>
    decreases entries.len(),
{
    if entries.len() == 0 {
        None
    } else if entries.last().name == name {
        Some(entries.last().rule)
    } else {
        last_rule(entries.drop_last(), name)
    }
}

/// What is offered of a model: nothing where its rule turns it off, else the model,
/// under the name that its rule maps it to.
pub open spec fn offered(model: ModelView, entries: Seq<EntryView>) -> Option<ModelView> {
    match last_rule(entries, model.id) {
        None => Some(model),
        Some(rule) => if rule.enable == Some(false) {
            None
        } else {
            match rule.mapping {
                Some(mapping) => Some(renamed(model, mapping)),
                None => Some(model),
            }
        },
    }
}

/// What is offered of a list of models, in its order.
pub open spec fn merged(models: Seq<ModelView>, entries: Seq<EntryView>) -> Seq<ModelView>
    decreases models.len(),
{
    if models.len() == 0 {
        Seq::empty()
    } else {
        let before = merged(models.drop_last(), entries);
        match offered(models.last(), entries) {
            Some(model) => before.push(model),
            None => before,
        }
    }
}

fn copy_model(model: &ModelInfo, id: String) -> (r: ModelInfo)
    ensures
        r@ == renamed(model@, id@),
{
    ModelInfo {
        id,
        object: model.object.clone(),
        created: model.created,
        owned_by: model.owned_by.clone(),
    }
}

/// The models under the lowercase form of their names.
pub fn lowercase_ids(models: &Vec<ModelInfo>) -> (r: Vec<ModelInfo>)
    ensures
        model_views(r@) == lowered_models(model_views(models@)),
{
    let mut out: Vec<ModelInfo> = Vec::new();
    let mut i: usize = 0;
    while i < models.len()
        invariant
            i <= models@.len(),
            out@.len() == i,
            forall|j: int| 0 <= j < i ==> (#[trigger] out@[j])@ == lowered_model(models@[j]@),
        decreases models@.len() - i,
    {
        let id = models[i].id.as_str().to_lowercase();
        out.push(copy_model(&models[i], id));
        i = i + 1;
    }
    assert(model_views(out@) =~= lowered_models(model_views(models@)));
    out
}

/// The entries with the lowercase form of their names.
pub fn lowercase_entries(entries: &Vec<ModelEntry>) -> (r: Vec<ModelEntry>)
    ensures
        entry_views(r@) == lowered_entries(entry_views(entries@)),
{
    let mut out: Vec<ModelEntry> = Vec::new();
    let mut i: usize = 0;
    while i < entries.len()
        invariant
            i <= entries@.len(),
            out@.len() == i,
            forall|j: int| 0 <= j < i ==> (#[trigger] out@[j])@ == lowered_entry(entries@[j]@),
        decreases entries@.len() - i,
    {
        let mapping = match &entries[i].rule.mapping {
            Some(mapping) => Some(mapping.as_str().to_lowercase()),
            None => None,
        };
        let rule = ModelConfig { mapping, enable: entries[i].rule.enable };
        let name = entries[i].name.as_str().to_lowercase();
        out.push(ModelEntry { name, rule });
        i = i + 1;
    }
    assert(entry_views(out@) =~= lowered_entries(entry_views(entries@)));
    out
}

/// The position of the last entry with the name `id`.
fn last_entry(entries: &Vec<ModelEntry>, id: &str) -> (r: Option<usize>)
    ensures
        match r {
            Some(i) => i < entries@.len() && last_rule(entry_views(entries@), id@) == Some(
                entries@[i as int].rule@,
            ),
            None => last_rule(entry_views(entries@), id@) is None,
        },
{
    let ghost views = entry_views(entries@);
    let mut n: usize = entries.len();
    assert(views.take(n as int) =~= views);
    while n > 0
        invariant
            n <= entries@.len(),
            views == entry_views(entries@),
            last_rule(views, id@) == last_rule(views.take(n as int), id@),
        decreases n,
    {
        assert(views.take(n as int).drop_last() =~= views.take(n - 1));
        assert(views.take(n as int).last() == entries@[n - 1]@);
        if same(entries[n - 1].name.as_str(), id) {
            return Some(n - 1);
        }
        n = n - 1;
    }
    None
}

/// What is offered of a list of models. The names of the models and of the entries
/// are compared as they are.
pub fn merge_lowered(models: &Vec<ModelInfo>, entries: &Vec<ModelEntry>) -> (r: Vec<ModelInfo>)
    ensures
        model_views(r@) == merged(model_views(models@), entry_views(entries@)),
{
    let ghost views = model_views(models@);
    let ghost rules = entry_views(entries@);
    let mut out: Vec<ModelInfo> = Vec::new();
    let mut i: usize = 0;
    assert(model_views(out@) =~= merged(views.take(0), rules));
    while i < models.len()
        invariant
            i <= models@.len(),
            views == model_views(models@),
            rules == entry_views(entries@),
            model_views(out@) == merged(views.take(i as int), rules),
        decreases models@.len() - i,
    {
        let ghost before = out@;
        let model = &models[i];
        assert(views.take(i + 1).drop_last() =~= views.take(i as int));
        assert(views.take(i + 1).last() == model@);
        match last_entry(entries, model.id.as_str()) {
            None => {
                out.push(copy_model(model, model.id.clone()));
            },
            Some(k) => {
                let turned_off = match entries[k].rule.enable {
                    Some(enable) => !enable,
                    None => false,
                };
                if !turned_off {
                    let id = match &entries[k].rule.mapping {
                        Some(mapping) => mapping.clone(),
                        None => model.id.clone(),
                    };
                    out.push(copy_model(model, id));
                }
            },
        }
        assert(model_views(out@) =~= merged(views.take(i + 1), rules)) by {
            if out@.len() > before.len() {
                assert(model_views(out@) =~= model_views(before).push(out@.last()@));
            }
        }
        i = i + 1;
    }
    assert(views.take(i as int) =~= views);
    out
}

/// What is offered of the service's models under the rules of the configuration.
/// Names are compared without regard to case, and offered in lowercase.
pub fn merge_models(models: &Vec<ModelInfo>, config: &Config) -> (r: Vec<ModelInfo>)
    ensures
        model_views(r@) == merged(
            lowered_models(model_views(models@)),
            lowered_entries(config.entries()),
        ),
{
    let lowered = lowercase_ids(models);
    let entries = config.models();
    assert(entry_views(entries@) =~= config.entries());
    let rules = lowercase_entries(entries);
    merge_lowered(&lowered, &rules)
}

/// What the service's list of models is fetched for.
#[derive(Clone, Copy, Debug, PartialEq, Eq, Structural)]
pub enum FetchPurpose {
    /// To be shown as it is, and stored.
    Unfiltered,
    /// To be stored, and shown under the rules of the configuration.
    Merge,
    /// To be shown as it is.
    Direct,
}

/// How a request for the list of models is answered.
#[derive(Clone, Copy, Debug, PartialEq, Eq, Structural)]
pub enum ModelsPlan {
    /// From the service.
    Fetch(FetchPurpose),
    /// From the stored list, under the rules of the configuration.
    MergeStored,
}

/// Whether the configuration has no say in a request for `path`.
pub fn bypasses_config(path: &str) -> (r: bool)
    ensures
        r == (path@ == "/api/models"@),
{
    same(path, "/api/models")
}

/// How a request for the list of models is answered: by the path it names, by whether
/// the rules of the configuration apply, and by whether a list is stored.
pub fn get_models(path: &str, rules_apply: bool, is_stored: bool) -> (r: ModelsPlan)
    ensures
        r == (if path@ == "/api/models"@ {
            ModelsPlan::Fetch(FetchPurpose::Unfiltered)
        } else if !rules_apply {
            ModelsPlan::Fetch(FetchPurpose::Direct)
        } else if is_stored {
            ModelsPlan::MergeStored
        } else {
            ModelsPlan::Fetch(FetchPurpose::Merge)
        }),
{
    if bypasses_config(path) {
        ModelsPlan::Fetch(FetchPurpose::Unfiltered)
    } else if !rules_apply {
        ModelsPlan::Fetch(FetchPurpose::Direct)
    } else if is_stored {
        ModelsPlan::MergeStored
    } else {
        ModelsPlan::Fetch(FetchPurpose::Merge)
    }
}

/// The answer to a request for the list of models.
#[derive(Debug)]
pub struct ModelsReply {
    /// The list to store from now on, where there is a new one.
    pub store: Option<Vec<ModelInfo>>,
    /// The list to send, or what went wrong.
    pub body: Result<Vec<ModelInfo>, ErrorReply>,
}

/// What a client is told where the list cannot be fetched.
pub open spec fn fetch_error(purpose: FetchPurpose, reason: Seq<char>) -> Seq<char> {
    match purpose {
        FetchPurpose::Unfiltered => reason,
        FetchPurpose::Merge => "未能檢索模型列表以填充快取："@ + reason,
        FetchPurpose::Direct => "無法直接從API獲取模型："@ + reason,
    }
}

/// The answer once the service's list has been fetched, or could not be.
pub fn fetched_reply(
    purpose: FetchPurpose,
    config: &Config,
    fetched: Result<Vec<ModelInfo>, String>,
) -> (r: ModelsReply)
    ensures
        match fetched {
            Ok(list) => {
                let lowered = lowered_models(model_views(list@));
                &&& r.store is Some <==> purpose != FetchPurpose::Direct
                &&& r.store matches Some(stored) ==> model_views(stored@) == lowered
                &&& r.body matches Ok(sent)
                &&& model_views(sent@) == (if purpose == FetchPurpose::Merge {
                    merged(lowered_models(lowered), lowered_entries(config.entries()))
                } else {
                    lowered
                })
            },
            Err(reason) => {
                &&& r.store is None
                &&& r.body matches Err(reply)
                &&& reply@ == message_reply_view(500, fetch_error(purpose, reason@))
            },
        },
{
    match fetched {
        Ok(list) => {
            let lowered = lowercase_ids(&list);
            match purpose {
                FetchPurpose::Unfiltered => {
                    let stored = lowercase_ids(&list);
                    ModelsReply { store: Some(stored), body: Ok(lowered) }
                },
                FetchPurpose::Merge => {
                    let sent = merge_models(&lowered, config);
                    ModelsReply { store: Some(lowered), body: Ok(sent) }
                },
                FetchPurpose::Direct => ModelsReply { store: None, body: Ok(lowered) },
            }
        },
        Err(reason) => {
            let mut message = match purpose {
                FetchPurpose::Unfiltered => String::new(),
                FetchPurpose::Merge => "未能檢索模型列表以填充快取：".to_string(),
                FetchPurpose::Direct => "無法直接從API獲取模型：".to_string(),
            };
            message.append(reason.as_str());
            assert(message@ =~= fetch_error(purpose, reason@));
            ModelsReply { store: None, body: Err(message_reply(500, message.as_str())) }
        },
    }
}

/// Without rules all models are offered as they are.
pub proof fn law_no_rules_keep_all(models: Seq<ModelView>)
    ensures
        merged(models, Seq::empty()) == models,
    decreases models.len(),
{
    if models.len() > 0 {
        law_no_rules_keep_all(models.drop_last());
        assert(models.drop_last().push(models.last()) =~= models);
    } else {
        assert(merged(models, Seq::empty()) =~= models);
    }
}

/// What is offered are the models that are not turned off, each once and in their
/// order: the list for the first models is the beginning of the list for all.
pub proof fn law_offers_in_order(models: Seq<ModelView>, entries: Seq<EntryView>, n: int)
    requires
        0 <= n <= models.len(),
    ensures
        merged(models.take(n), entries).is_prefix_of(merged(models, entries)),
        merged(models, entries).len() <= models.len(),
        forall|k: int|
            0 <= k < merged(models, entries).len() ==> exists|i: int|
                0 <= i < models.len() && offered(#[trigger] models[i], entries) == Some(
                    #[trigger] merged(models, entries)[k],
                ),
    decreases models.len(),
{
    let all = merged(models, entries);
    if models.len() == 0 {
        assert(models.take(n) =~= models);
    } else {
        let earlier = models.drop_last();
        let before = merged(earlier, entries);
        law_offers_in_order(earlier, entries, if n < models.len() { n } else { n - 1 });
        if n < models.len() {
            assert(earlier.take(n) =~= models.take(n));
        } else {
            assert(models.take(n) =~= models);
        }
        assert(before.is_prefix_of(all));
        let part = merged(models.take(n), entries);
        if n < models.len() {
            assert(part.is_prefix_of(before));
            assert(part =~= all.subrange(0, part.len() as int));
        }
        assert forall|k: int| 0 <= k < all.len() implies exists|i: int|
            0 <= i < models.len() && offered(#[trigger] models[i], entries) == Some(
                #[trigger] all[k],
            ) by {
            if k < before.len() {
                assert(all[k] == before[k]);
                let i = choose|i: int|
                    0 <= i < earlier.len() && offered(#[trigger] earlier[i], entries) == Some(
                        before[k],
                    );
                assert(models[i] == earlier[i]);
                assert(offered(models[i], entries) == Some(all[k]));
            } else {
                assert(offered(models[models.len() - 1], entries) == Some(all[k]));
            }
        }
    }
}

/// A rule that is found is that of an entry with the name; where none is found, no entry
/// has it.
pub proof fn lemma_last_rule(entries: Seq<EntryView>, name: Seq<char>)
    ensures
        match last_rule(entries, name) {
            Some(rule) => exists|i: int|
                0 <= i < entries.len() && #[trigger] entries[i] == (EntryView { name, rule }),
            None => forall|i: int| 0 <= i < entries.len() ==> #[trigger] entries[i].name != name,
        },
    decreases entries.len(),
{
    if entries.len() > 0 {
        if entries.last().name == name {
            assert(entries[entries.len() - 1] == (EntryView { name, rule: entries.last().rule }));
        } else {
            let rest = entries.drop_last();
            lemma_last_rule(rest, name);
            match last_rule(rest, name) {
                Some(rule) => {
                    let i = choose|i: int|
                        0 <= i < rest.len() && #[trigger] rest[i] == (EntryView { name, rule });
                    assert(entries[i] == (EntryView { name, rule }));
                },
                None => {
                    assert forall|i: int| 0 <= i < entries.len() implies #[trigger] entries[i].name
                        != name by {
                        if i < rest.len() {
                            assert(rest[i] == entries[i]);
                        }
                    }
                },
            }
        }
    }
}

/// Where no two entries have the same name, their order makes no difference to the
/// rule that is found.
pub proof fn law_rule_order_does_not_matter(
    a: Seq<EntryView>,
    b: Seq<EntryView>,
    name: Seq<char>,
)
    requires
        crate::config::distinct_names(a),
        forall|e: EntryView| a.contains(e) <==> b.contains(e),
    ensures
        last_rule(a, name) == last_rule(b, name),
{
    lemma_last_rule(a, name);
    lemma_last_rule(b, name);
    match (last_rule(a, name), last_rule(b, name)) {
        (Some(ra), Some(rb)) => {
            let i = choose|i: int|
                0 <= i < a.len() && #[trigger] a[i] == (EntryView { name, rule: ra });
            let e = EntryView { name, rule: rb };
            let j = choose|j: int| 0 <= j < b.len() && #[trigger] b[j] == e;
            assert(b.contains(e));
            let k = choose|k: int| 0 <= k < a.len() && a[k] == e;
            if i < k {
                assert(a[i].name != a[k].name);
            } else if k < i {
                assert(a[k].name != a[i].name);
            }
        },
        (Some(ra), None) => {
            let e = EntryView { name, rule: ra };
            let i = choose|i: int| 0 <= i < a.len() && #[trigger] a[i] == e;
            assert(a.contains(e));
            let j = choose|j: int| 0 <= j < b.len() && b[j] == e;
            assert(b[j].name == name);
        },
        (None, Some(rb)) => {
            let e = EntryView { name, rule: rb };
            let j = choose|j: int| 0 <= j < b.len() && #[trigger] b[j] == e;
            assert(b.contains(e));
            let i = choose|i: int| 0 <= i < a.len() && a[i] == e;
            assert(a[i].name == name);
        },
        (None, None) => {},
    }
}

/// Where no two entries have the same name, their order makes no difference to what is
/// offered.
pub proof fn law_entry_order_does_not_matter(
    models: Seq<ModelView>,
    a: Seq<EntryView>,
    b: Seq<EntryView>,
)
    requires
        crate::config::distinct_names(a),
        forall|e: EntryView| a.contains(e) <==> b.contains(e),
    ensures
        merged(models, a) == merged(models, b),
    decreases models.len(),
{
    if models.len() > 0 {
        law_entry_order_does_not_matter(models.drop_last(), a, b);
        law_rule_order_does_not_matter(a, b, models.last().id);
    }
}

} // verus!
