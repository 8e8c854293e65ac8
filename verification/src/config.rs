//! The rules for models that a configuration file sets.

use vstd::prelude::*;
use vstd::string::StringExecFns;

use crate::text::same;
use crate::types::optional_text;

verus! {

/// The rule for one model.
#[derive(Debug)]
pub struct ModelConfig {
    /// The name under which the model is offered.
    pub mapping: Option<String>,
    /// Whether the model is offered.
    pub enable: Option<bool>,
}

/// The contents of a `ModelConfig`.
#[verifier::ext_equal]
pub struct RuleView {
    pub mapping: Option<Seq<char>>,
    pub enable: Option<bool>,
}

impl View for ModelConfig {
    type V = RuleView;

    open spec fn view(&self) -> RuleView {
        RuleView { mapping: optional_text(self.mapping), enable: self.enable }
    }
}

/// A model and the rule for it.
#[derive(Debug)]
pub struct ModelEntry {
    pub name: String,
    pub rule: ModelConfig,
}

/// The contents of a `ModelEntry`.
#[verifier::ext_equal]
pub struct EntryView {
    pub name: Seq<char>,
    pub rule: RuleView,
}

impl View for ModelEntry {
    type V = EntryView;

    open spec fn view(&self) -> EntryView {
        EntryView { name: self.name@, rule: self.rule@ }
    }
}

/// Whether no two entries are for the same model.
pub open spec fn distinct_names(entries: Seq<EntryView>) -> bool {
    forall|i: int, j: int|
        0 <= i < j < entries.len() ==> #[trigger] entries[i].name != #[trigger] entries[j].name
}

/// The position of the entry for `name`, or the number of entries.
pub open spec fn entry_position(entries: Seq<EntryView>, name: Seq<char>) -> int
    decreases entries.len(),
{
    if entries.len() == 0 || entries[0].name == name {
        0
    } else {
        1 + entry_position(entries.drop_first(), name)
    }
}

/// `entries` with the rule for `name`, in the place of an earlier one for it or else
/// behind the others.
pub open spec fn with_entry(entries: Seq<EntryView>, name: Seq<char>, rule: RuleView) -> Seq<
    EntryView,
> {
    let i = entry_position(entries, name);
    if i < entries.len() {
        entries.update(i, EntryView { name, rule })
    } else {
        entries.push(EntryView { name, rule })
    }
}

proof fn lemma_entry_position(entries: Seq<EntryView>, name: Seq<char>, i: int)
    requires
        0 <= i <= entries.len(),
        i < entries.len() ==> entries[i].name == name,
        forall|j: int| 0 <= j < i ==> #[trigger] entries[j].name != name,
    ensures
        entry_position(entries, name) == i,
    decreases entries.len(),
{
    if i > 0 {
        assert(entries[0].name != name);
        assert forall|j: int| 0 <= j < i - 1 implies #[trigger] entries.drop_first()[j].name
            != name by {
            assert(entries.drop_first()[j] == entries[j + 1]);
        }
        lemma_entry_position(entries.drop_first(), name, i - 1);
    }
}

/// The configuration: whether its rules apply, and the rules, one for a model, in the
/// order in which they are gone through.
#[derive(Debug)]
pub struct Config {
    enable: Option<bool>,
    models: Vec<ModelEntry>,
}

impl Config {
    /// The setting that makes the rules apply.
    pub closed spec fn enable_setting(&self) -> Option<bool> {
        self.enable
    }

    /// The rules.
    pub closed spec fn entries(&self) -> Seq<EntryView> {
        self.models@.map_values(|e: ModelEntry| e@)
    }

    /// Whether the rules apply: only where the setting says so.
    pub open spec fn applies(&self) -> bool {
        self.enable_setting() == Some(true)
    }

    #[verifier::type_invariant]
    closed spec fn one_rule_for_a_model(self) -> bool {
        distinct_names(self.models@.map_values(|e: ModelEntry| e@))
    }

    /// A configuration without rules.
    pub fn new(enable: Option<bool>) -> (r: Config)
        ensures
            r.enable_setting() == enable,
            r.entries() == Seq::<EntryView>::empty(),
    {
        let models: Vec<ModelEntry> = Vec::new();
        assert(models@.map_values(|e: ModelEntry| e@) =~= Seq::<EntryView>::empty());
        Config { enable, models }
    }

    /// Sets the rule for a model.
    pub fn insert(self, name: String, rule: ModelConfig) -> (r: Config)
        ensures
            r.enable_setting() == self.enable_setting(),
            r.entries() == with_entry(self.entries(), name@, rule@),
    {
        proof {
            use_type_invariant(&self);
        }
        let ghost before = self.entries();
        let Config { enable, mut models } = self;
        let mut i: usize = 0;
        while i < models.len() && !same(models[i].name.as_str(), name.as_str())
            invariant
                i <= models@.len(),
                before == models@.map_values(|e: ModelEntry| e@),
                distinct_names(before),
                forall|j: int| 0 <= j < i ==> #[trigger] before[j].name != name@,
            decreases models@.len() - i,
        {
            i = i + 1;
        }
        proof {
            lemma_entry_position(before, name@, i as int);
        }
        let entry = ModelEntry { name, rule };
        if i < models.len() {
            models.set(i, entry);
            assert(models@.map_values(|e: ModelEntry| e@) =~= before.update(i as int, entry@));
        } else {
            models.push(entry);
            assert(models@.map_values(|e: ModelEntry| e@) =~= before.push(entry@));
        }
        assert(distinct_names(with_entry(before, entry.name@, entry.rule@)));
        Config { enable, models }
    }

    /// Whether the rules apply.
    pub fn is_enabled(&self) -> (r: bool)
        ensures
            r == self.applies(),
    {
        match self.enable {
            Some(enable) => enable,
            None => false,
        }
    }

    /// The rules.
    pub fn models(&self) -> (r: &Vec<ModelEntry>)
        ensures
            r@.map_values(|e: ModelEntry| e@) == self.entries(),
            distinct_names(self.entries()),
    {
        proof {
            use_type_invariant(self);
        }
        &self.models
    }
}

/// What came of reading the configuration file.
#[derive(Debug)]
pub enum ConfigRead {
    /// There is no such file.
    Missing,
    /// It could not be read, for the reason given.
    Unreadable(String),
    /// It does not hold a configuration, for the reason given.
    Malformed(String),
    /// It holds this configuration.
    Parsed(Config),
}

/// The name of the configuration file.
pub open spec fn config_file() -> Seq<char> {
    "models.yaml"@
}

/// Whether `config` is the one that stands for a missing file: without rules, and
/// with none to apply.
pub open spec fn is_default_config(config: Config) -> bool {
    config.enable_setting() == Some(false) && config.entries() == Seq::<EntryView>::empty()
}

/// The configuration that stands for a missing file.
pub fn default_config() -> (r: Config)
    ensures
        is_default_config(r),
{
    Config::new(Some(false))
}

/// Whether `result` is what comes of a read of the file: the configuration, or what
/// is wrong with it.
pub open spec fn loads_as(read: ConfigRead, result: Result<Config, String>) -> bool {
    match read {
        ConfigRead::Missing => result matches Ok(config) && is_default_config(config),
        ConfigRead::Parsed(config) => result == Ok::<Config, String>(config),
        ConfigRead::Malformed(reason) => result matches Err(message) && message@ == "解析 "@
            + config_file() + " 失敗: "@ + reason@,
        ConfigRead::Unreadable(reason) => result matches Err(message) && message@ == "讀取 "@
            + config_file() + " 失敗: "@ + reason@,
    }
}

/// The configuration that a read of its file gives, or what is wrong with it.
pub fn load_config_from_yaml(read: ConfigRead) -> (r: Result<Config, String>)
    ensures
        loads_as(read, r),
{
    match read {
        ConfigRead::Missing => Ok(default_config()),
        ConfigRead::Parsed(config) => Ok(config),
        ConfigRead::Malformed(reason) => {
            let mut message = "解析 ".to_string();
            message.append("models.yaml");
            message.append(" 失敗: ");
            message.append(reason.as_str());
            Err(message)
        },
        ConfigRead::Unreadable(reason) => {
            let mut message = "讀取 ".to_string();
            message.append("models.yaml");
            message.append(" 失敗: ");
            message.append(reason.as_str());
            Err(message)
        },
    }
}

/// The rule for `name`.
pub open spec fn rule_for(entries: Seq<EntryView>, name: Seq<char>) -> Option<RuleView> {
    let i = entry_position(entries, name);
    if i < entries.len() {
        Some(entries[i].rule)
    } else {
        None
    }
}

proof fn lemma_entry_found(entries: Seq<EntryView>, name: Seq<char>)
    ensures
        0 <= entry_position(entries, name) <= entries.len(),
        entry_position(entries, name) < entries.len() ==> entries[entry_position(
            entries,
            name,
        )].name == name,
        forall|j: int|
            0 <= j < entry_position(entries, name) ==> #[trigger] entries[j].name != name,
    decreases entries.len(),
{
    if entries.len() > 0 && entries[0].name != name {
        let rest = entries.drop_first();
        lemma_entry_found(rest, name);
        assert forall|j: int| 0 <= j < entry_position(entries, name) implies #[trigger] entries[j].name
            != name by {
            if j > 0 {
                assert(rest[j - 1] == entries[j]);
            }
        }
    }
}

/// Setting a rule sets the rule for its model and no other, and keeps one rule for a
/// model.
pub proof fn law_setting_a_rule(
    entries: Seq<EntryView>,
    name: Seq<char>,
    rule: RuleView,
    other: Seq<char>,
)
    ensures
        rule_for(with_entry(entries, name, rule), name) == Some(rule),
        other != name ==> rule_for(with_entry(entries, name, rule), other) == rule_for(
            entries,
            other,
        ),
        distinct_names(entries) ==> distinct_names(with_entry(entries, name, rule)),
{
    let after = with_entry(entries, name, rule);
    let i = entry_position(entries, name);
    lemma_entry_found(entries, name);
    lemma_entry_position(after, name, i);
    if other != name {
        let k = entry_position(entries, other);
        lemma_entry_found(entries, other);
        if k < entries.len() {
            lemma_entry_position(after, other, k);
        } else {
            lemma_entry_position(after, other, after.len() as int);
        }
    }
}

} // verus!
