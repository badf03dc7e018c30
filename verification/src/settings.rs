//! Saving and restoring module settings: when the auto-save writes, and what
//! the settings endpoints answer.
use vstd::prelude::*;
use crate::linker::opt_view;
use crate::text::{decimal, push_decimal, push_str_chars};

verus! {

/// What `serde_json` makes of member `key` of the JSON text `text`: `None`
/// where the text is no JSON; else `None` inside where the value has no such
/// member (or is no object), and whether the member is `null` otherwise.
pub uninterp spec fn json_member_is_null(text: Seq<char>, key: Seq<char>) -> Option<Option<bool>>;

/// `serde_json::from_str::<Value>`, then `Value::get` of `key` and
/// `Value::is_null` on what it found. Claimed: the result is a function of the
/// text and the key alone, named [`json_member_is_null`].
#[verifier::external_body]
fn json_member_null(text: &str, key: &str) -> (r: Option<Option<bool>>)
    ensures
        r == json_member_is_null(text@, key@),
{
    serde_json::from_str::<serde_json::Value>(text).ok().map(|v| v.get(key).map(|m| m.is_null()))
}

/// A module's entry holds data: it is there and not `null`.
pub open spec fn has_data(member: Option<bool>) -> bool {
    member == Some(false)
}

/// Whether writing `current` over `prev` would drop module `key`'s data: both
/// texts are JSON, `prev` holds data for the module and `current` does not.
pub open spec fn drops_module(prev: Seq<char>, current: Seq<char>, key: Seq<char>) -> bool {
    match (json_member_is_null(prev, key), json_member_is_null(current, key)) {
        (Some(p), Some(c)) => has_data(p) && !has_data(c),
        _ => false,
    }
}

/// Whether writing `current` over `prev` would drop the data of the
/// `speakereq` or `input_processor` module.
pub open spec fn drops_data(prev: Seq<char>, current: Seq<char>) -> bool {
    drops_module(prev, current, "speakereq"@) || drops_module(prev, current, "input_processor"@)
}

fn drops_module_exec(prev: &str, current: &str, key: &str) -> (r: bool)
    ensures
        r == drops_module(prev@, current@, key@),
{
    match (json_member_null(prev, key), json_member_null(current, key)) {
        (Some(p), Some(c)) => {
            let had = match p {
                Some(n) => !n,
                None => false,
            };
            let has = match c {
                Some(n) => !n,
                None => false,
            };
            had && !has
        },
        _ => false,
    }
}

/// Would writing `current` over `prev` drop a module we already have data for?
///
/// A module serializes to `null` whenever its PipeWire node is missing, during
/// boot or while the filter chain restarts; saving that would throw the stored
/// settings away, so such a snapshot is skipped. Content that is no JSON is
/// not worth protecting.
pub fn drops_module_data(prev: &str, current: &str) -> (r: bool)
    ensures
        r == drops_data(prev@, current@),
{
    drops_module_exec(prev, current, "speakereq") || drops_module_exec(prev, current, "input_processor")
}

/// Auto-save state.
pub struct AutoSaveState {
    /// The settings last written (or found in the file at start).
    pub last_saved: Option<String>,
    pub interval_secs: u64,
    /// Set once the startup restore has run (or given up). The auto-save must
    /// not write before that, or it would overwrite the saved settings with
    /// the defaults the modules come up with at boot.
    pub restore_done: bool,
}

impl AutoSaveState {
    /// A state with nothing saved yet, waiting for the startup restore.
    pub fn new(interval_secs: u64) -> (r: AutoSaveState)
        ensures
            r.last_saved is None,
            r.interval_secs == interval_secs,
            !r.restore_done,
    {
        AutoSaveState { last_saved: None, interval_secs, restore_done: false }
    }

    /// A state whose last save is what the settings file holds (`None` where
    /// it could not be read), waiting for the startup restore.
    pub fn new_with_file(interval_secs: u64, file_content: Option<String>) -> (r: AutoSaveState)
        ensures
            opt_view(r.last_saved) == opt_view(file_content),
            r.interval_secs == interval_secs,
            !r.restore_done,
    {
        AutoSaveState { last_saved: file_content, interval_secs, restore_done: false }
    }
}

/// What one tick of the auto-save does.
#[derive(Debug, Clone)]
pub enum AutoSaveAction {
    /// The startup restore has not run yet: do nothing.
    Wait,
    /// Nothing to write now.
    Skip,
    /// Write these settings to the settings file.
    Save(String),
}

/// Model of an [`AutoSaveAction`].
pub enum ActionModel {
    Wait,
    Skip,
    Save(Seq<char>),
}

impl View for AutoSaveAction {
    type V = ActionModel;

    open spec fn view(&self) -> ActionModel {
        match self {
            AutoSaveAction::Wait => ActionModel::Wait,
            AutoSaveAction::Skip => ActionModel::Skip,
            AutoSaveAction::Save(s) => ActionModel::Save(s@),
        }
    }
}

/// The auto-save's decision on a tick: wait until the startup restore ran;
/// skip where the current settings could not be had, where writing them would
/// drop a module's data, or where they are what was last saved; else save them.
pub open spec fn tick_action(restore_done: bool, last_saved: Option<Seq<char>>, current: Option<Seq<char>>) -> ActionModel {
    if !restore_done {
        ActionModel::Wait
    } else {
        match current {
            None => ActionModel::Skip,
            Some(cur) => match last_saved {
                Some(prev) => if drops_data(prev, cur) || prev == cur {
                    ActionModel::Skip
                } else {
                    ActionModel::Save(cur)
                },
                None => ActionModel::Save(cur),
            },
        }
    }
}

impl AutoSaveState {
    /// Decide one tick of the auto-save, given the current settings as JSON
    /// (`None` where they could not be had).
    pub fn tick(&self, current: Option<String>) -> (r: AutoSaveAction)
        ensures
            r@ == tick_action(self.restore_done, opt_view(self.last_saved), opt_view(current)),
    {
        if !self.restore_done {
            return AutoSaveAction::Wait;
        }
        match current {
            None => AutoSaveAction::Skip,
            Some(cur) => match &self.last_saved {
                Some(prev) => {
                    if drops_module_data(prev.as_str(), cur.as_str()) || crate::pwcli::str_eq(
                        prev.as_str(),
                        cur.as_str(),
                    ) {
                        AutoSaveAction::Skip
                    } else {
                        AutoSaveAction::Save(cur)
                    }
                },
                None => AutoSaveAction::Save(cur),
            },
        }
    }

    /// Record that `json` was written to the settings file.
    pub fn saved(&mut self, json: String)
        ensures
            opt_view(final(self).last_saved) == Some(json@),
            final(self).interval_secs == old(self).interval_secs,
            final(self).restore_done == old(self).restore_done,
    {
        self.last_saved = Some(json);
    }

    /// Record that the startup restore ran (or gave up), or that a reset left
    /// nothing to restore: from now on the auto-save may write.
    pub fn restore_finished(&mut self)
        ensures
            final(self).restore_done,
            opt_view(final(self).last_saved) == opt_view(old(self).last_saved),
            final(self).interval_secs == old(self).interval_secs,
    {
        self.restore_done = true;
    }

    /// Record a reset: nothing is saved any more, and the auto-save may
    /// resume with the defaults.
    pub fn reset(&mut self)
        ensures
            final(self).last_saved is None,
            final(self).restore_done,
            final(self).interval_secs == old(self).interval_secs,
    {
        self.last_saved = None;
        self.restore_done = true;
    }
}

/// The auto-save writes nothing before the startup restore has run, never
/// writes a snapshot that drops a module's data, and never writes what it
/// last saved again.
pub proof fn lemma_auto_save_writes_only_safe_changes(
    restore_done: bool,
    last_saved: Option<Seq<char>>,
    current: Option<Seq<char>>,
)
    ensures
        tick_action(restore_done, last_saved, current) matches ActionModel::Save(s) ==> {
            &&& restore_done
            &&& current == Some(s)
            &&& last_saved matches Some(prev) ==> !drops_data(prev, s) && prev != s
        },
        !restore_done ==> tick_action(restore_done, last_saved, current) is Wait,
{
}

/// Once the startup restore ran, the auto-save writes every change that
/// drops no module's data: where the current settings were had, differ from
/// the last save and would not drop a module's data (or nothing was saved
/// yet), the tick saves exactly them.
pub proof fn lemma_auto_save_saves_safe_changes(last_saved: Option<Seq<char>>, current: Seq<char>)
    ensures
        tick_action(true, last_saved, None) == ActionModel::Skip,
        last_saved is None ==> tick_action(true, last_saved, Some(current)) == ActionModel::Save(current),
        (last_saved matches Some(prev) && prev != current && !drops_data(prev, current)) ==> tick_action(
            true,
            last_saved,
            Some(current),
        ) == ActionModel::Save(current),
        (last_saved matches Some(prev) && (prev == current || drops_data(prev, current))) ==> tick_action(
            true,
            last_saved,
            Some(current),
        ) == ActionModel::Skip,
{
}

/// Only a module that had data in the last save can be dropped: where
/// neither module holds data in `prev`, no settings count as dropping data;
/// and dropping data means some module had data in `prev` that `current`
/// (read as JSON) no longer holds.
pub proof fn lemma_drops_data_needs_saved_data(prev: Seq<char>, current: Seq<char>)
    ensures
        json_member_is_null(prev, "speakereq"@) != Some(Some(false)) && json_member_is_null(
            prev,
            "input_processor"@,
        ) != Some(Some(false)) ==> !drops_data(prev, current),
        drops_data(prev, current) ==> (json_member_is_null(prev, "speakereq"@) == Some(Some(false))
            && json_member_is_null(current, "speakereq"@) is Some && json_member_is_null(current, "speakereq"@)
            != Some(Some(false))) || (json_member_is_null(prev, "input_processor"@) == Some(Some(false))
            && json_member_is_null(current, "input_processor"@) is Some && json_member_is_null(
            current,
            "input_processor"@,
        ) != Some(Some(false))),
{
}

/// Answer to a save.
#[derive(Debug)]
pub struct SaveResponse {
    pub success: bool,
    pub path: String,
    pub message: String,
}

/// Answer to a restore.
#[derive(Debug)]
pub struct RestoreResponse {
    pub success: bool,
    pub message: String,
    pub modules_restored: Vec<String>,
}

/// Answer to a reset.
#[derive(Debug)]
pub struct ResetResponse {
    pub success: bool,
    pub message: String,
    pub modules_reset: Vec<String>,
    pub settings_removed: bool,
}

impl SaveResponse {
    /// The answer to a save that wrote the settings to `path`.
    pub fn saved_to(path: String) -> (r: SaveResponse)
        ensures
            r.success,
            r.path@ == path@,
            r.message@ == "Settings saved successfully"@,
    {
        SaveResponse { success: true, path, message: "Settings saved successfully".to_owned() }
    }
}

impl RestoreResponse {
    /// The answer to a restore that restored `modules`: `Restored <n> modules`.
    pub fn restored(modules: Vec<String>) -> (r: RestoreResponse)
        ensures
            r.success,
            r.message@ == "Restored "@ + decimal(modules@.len() as nat) + " modules"@,
            r.modules_restored@ == modules@,
    {
        let mut message = String::new();
        push_str_chars(&mut message, "Restored ");
        push_decimal(&mut message, modules.len() as u64);
        push_str_chars(&mut message, " modules");
        RestoreResponse { success: true, message, modules_restored: modules }
    }
}

impl ResetResponse {
    /// The answer to a reset that reset `modules` to their defaults and
    /// removed the settings file or found none: `Reset <n> module(s) to defaults`.
    pub fn reset(modules: Vec<String>, settings_removed: bool) -> (r: ResetResponse)
        ensures
            r.success,
            r.message@ == "Reset "@ + decimal(modules@.len() as nat) + " module(s) to defaults"@,
            r.modules_reset@ == modules@,
            r.settings_removed == settings_removed,
    {
        let mut message = String::new();
        push_str_chars(&mut message, "Reset ");
        push_decimal(&mut message, modules.len() as u64);
        push_str_chars(&mut message, " module(s) to defaults");
        ResetResponse { success: true, message, modules_reset: modules, settings_removed }
    }
}

} // verus!
