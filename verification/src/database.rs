//! The rules of the library database that do not need the database: which
//! batch tasks may be created and what a new task holds, which statuses a
//! task or item may be given, and the clock readings stored with records.
//! The SQL work is done by the caller.
use vstd::prelude::*;
use crate::clock::{system_millis, seconds_from_millis, max_duration_millis, whole_seconds};
use crate::lyrics::model::first_occurrences;
use crate::paths::{file_name, file_name_exec};
use crate::text::{is_blank, trim, str_blank, str_trimmed, str_eq, strings_view, contains_text, push_decimal, decimal};

verus! {

broadcast use vstd::string::group_string_axioms;

/// The kinds of batch task.
pub open spec fn batch_task_type(t: Seq<char>) -> bool {
    ||| t == "matchMetadata"@
    ||| t == "editTags"@
    ||| t == "renameFiles"@
    ||| t == "formatLyrics"@
    ||| t == "exportLyrics"@
    ||| t == "exportCover"@
    ||| t == "replayGain"@
}

/// What `serde_json::from_str::<serde_json::Value>` says of a text: `None`
/// when it is JSON, else the error's display text.
pub uninterp spec fn spec_json_error(text: Seq<char>) -> Option<Seq<char>>;

/// Parses the text with `serde_json::from_str::<serde_json::Value>` and
/// gives the error's display text when it is not JSON.
#[verifier::external_body]
pub(crate) fn json_error(text: &str) -> (r: Option<String>)
    ensures
        match r {
            Some(e) => spec_json_error(text@) == Some(e@),
            None => spec_json_error(text@) is None,
        },
{
    match serde_json::from_str::<serde_json::Value>(text) {
        Ok(_) => None,
        Err(error) => Some(error.to_string()),
    }
}

/// A batch task as stored.
#[derive(Debug)]
pub struct BatchTask {
    pub task_id: String,
    pub task_type: String,
    pub status: String,
    pub total: u32,
    pub current: u32,
    pub success_count: u32,
    pub failure_count: u32,
    pub skipped_count: u32,
    pub config_json: Option<String>,
    pub started_at: Option<String>,
    pub finished_at: Option<String>,
    pub created_at: String,
    pub updated_at: String,
    pub error_message: Option<String>,
}

/// One song of a new batch task: its item id, path and file name.
#[derive(Debug)]
pub struct BatchItemPlan {
    pub item_id: String,
    pub song_path: String,
    pub file_name: String,
}

/// A new batch task and its items, to be stored.
#[derive(Debug)]
pub struct BatchTaskPlan {
    pub task: BatchTask,
    pub items: Vec<BatchItemPlan>,
}

/// The trimmed paths that are not empty.
pub open spec fn trimmed_paths(paths: Seq<Seq<char>>) -> Seq<Seq<char>>
    decreases paths.len(),
{
    if paths.len() == 0 {
        Seq::empty()
    } else {
        let p = trimmed_paths(paths.drop_last());
        let t = trim(paths.last());
        if t.len() > 0 {
            p.push(t)
        } else {
            p
        }
    }
}

/// The songs of a new task: the given paths trimmed, empty ones and
/// repetitions left out, in order.
pub open spec fn task_songs(paths: Seq<Seq<char>>) -> Seq<Seq<char>> {
    first_occurrences(trimmed_paths(paths))
}

/// Why a batch task may not be created, if it may not: an unknown kind, a
/// configuration that is given (not blank) but not JSON, or no song.
pub open spec fn batch_task_problem(
    task_type: Seq<char>,
    paths: Seq<Seq<char>>,
    config_json: Option<Seq<char>>,
) -> Option<Seq<char>> {
    if !batch_task_type(task_type) {
        Some("Unsupported batch task type"@)
    } else if config_json matches Some(c) && !is_blank(c) && spec_json_error(c) is Some {
        Some("Invalid batch task configuration: "@ + spec_json_error(config_json.unwrap()).unwrap())
    } else if task_songs(paths).len() == 0 {
        Some("At least one song is required"@)
    } else {
        None
    }
}

/// The text of a number.
pub open spec fn index_text(i: int) -> Seq<char> {
    decimal(i as nat)
}

/// A new task as stored: queued, nothing done yet, one item per song; item
/// `i` has the id `<task id>-<i>` and the song's file name (the path when
/// it has none).
pub open spec fn planned_task(
    task_type: Seq<char>,
    songs: Seq<Seq<char>>,
    config_json: Option<String>,
    task_id: Seq<char>,
    timestamp: Seq<char>,
    plan: BatchTaskPlan,
) -> bool {
    let t = plan.task;
    &&& t.task_id@ == task_id
    &&& t.task_type@ == task_type
    &&& t.status@ == "queued"@
    &&& t.total == songs.len() as u32
    &&& t.current == 0 && t.success_count == 0 && t.failure_count == 0 && t.skipped_count == 0
    &&& t.config_json == config_json
    &&& t.started_at is None && t.finished_at is None && t.error_message is None
    &&& t.created_at@ == timestamp && t.updated_at@ == timestamp
    &&& plan.items@.len() == songs.len()
    &&& forall|i: int| 0 <= i < songs.len() ==> {
        &&& (#[trigger] plan.items@[i]).song_path@ == songs[i]
        &&& plan.items@[i].item_id@ == task_id + "-"@ + index_text(i)
        &&& plan.items@[i].file_name@ == (match file_name(songs[i]) {
            Some(n) => n,
            None => songs[i],
        })
    }
}

fn task_songs_exec(paths: &Vec<String>) -> (r: Vec<String>)
    ensures
        strings_view(r@) == task_songs(strings_view(paths@)),
{
    let ghost pv = strings_view(paths@);
    let mut trimmed: Vec<String> = Vec::new();
    let mut i: usize = 0;
    while i < paths.len()
        invariant
            0 <= i <= paths@.len(),
            pv == strings_view(paths@),
            strings_view(trimmed@) == trimmed_paths(pv.take(i as int)),
        decreases paths.len() - i,
    {
        assert(pv.take(i + 1).drop_last() == pv.take(i as int));
        assert(pv.take(i + 1).last() == paths@[i as int]@);
        let t = str_trimmed(paths[i].as_str());
        if !t.as_str().is_empty() {
            let ghost prev = strings_view(trimmed@);
            trimmed.push(t);
            assert(strings_view(trimmed@) =~= prev.push(trim(paths@[i as int]@)));
        }
        i = i + 1;
    }
    assert(pv.take(paths@.len() as int) == pv);
    crate::batch::metadata::deduplicate(&mut trimmed);
    trimmed
}

/// A new batch task and its items (see [`batch_task_problem`] and
/// [`planned_task`]); the task id and the time stamp are the caller's.
pub fn prepare_batch_task(
    task_type: &str,
    song_paths: &Vec<String>,
    config_json: Option<String>,
    task_id: String,
    timestamp: String,
) -> (r: Result<BatchTaskPlan, String>)
    ensures
        match r {
            Ok(plan) => batch_task_problem(
                task_type@,
                strings_view(song_paths@),
                match config_json {
                    Some(c) => Some(c@),
                    None => None,
                },
            ) is None && planned_task(
                task_type@,
                task_songs(strings_view(song_paths@)),
                config_json,
                task_id@,
                timestamp@,
                plan,
            ),
            Err(e) => batch_task_problem(
                task_type@,
                strings_view(song_paths@),
                match config_json {
                    Some(c) => Some(c@),
                    None => None,
                },
            ) == Some(e@),
        },
{
    let t = task_type;
    if !(str_eq(t, "matchMetadata") || str_eq(t, "editTags") || str_eq(t, "renameFiles") || str_eq(
        t,
        "formatLyrics",
    ) || str_eq(t, "exportLyrics") || str_eq(t, "exportCover") || str_eq(t, "replayGain")) {
        return Err("Unsupported batch task type".to_string());
    }
    if let Some(config) = &config_json {
        if !str_blank(config.as_str()) {
            if let Some(error) = json_error(config.as_str()) {
                let mut e = "Invalid batch task configuration: ".to_string();
                e.append(error.as_str());
                return Err(e);
            }
        }
    }
    let songs = task_songs_exec(song_paths);
    if songs.len() == 0 {
        return Err("At least one song is required".to_string());
    }
    let ghost sv = strings_view(songs@);
    let mut items: Vec<BatchItemPlan> = Vec::new();
    let mut i: usize = 0;
    while i < songs.len()
        invariant
            0 <= i <= songs@.len(),
            sv == strings_view(songs@),
            items@.len() == i,
            forall|k: int| 0 <= k < i ==> {
                &&& (#[trigger] items@[k]).song_path@ == sv[k]
                &&& items@[k].item_id@ == task_id@ + "-"@ + index_text(k)
                &&& items@[k].file_name@ == (match file_name(sv[k]) {
                    Some(n) => n,
                    None => sv[k],
                })
            },
        decreases songs.len() - i,
    {
        let path = &songs[i];
        let mut item_id = task_id.clone();
        item_id.append("-");
        push_decimal(&mut item_id, i as u64);
        let name = match file_name_exec(path.as_str()) {
            Some(n) => n,
            None => path.clone(),
        };
        items.push(BatchItemPlan { item_id, song_path: path.clone(), file_name: name });
        i = i + 1;
    }
    #[verifier::truncate]
    let total = songs.len() as u32;
    let task = BatchTask {
        task_id,
        task_type: task_type.to_string(),
        status: "queued".to_string(),
        total,
        current: 0,
        success_count: 0,
        failure_count: 0,
        skipped_count: 0,
        config_json,
        started_at: None,
        finished_at: None,
        created_at: timestamp.clone(),
        updated_at: timestamp,
        error_message: None,
    };
    Ok(BatchTaskPlan { task, items })
}

/// A stored batch item as a retry reads it: its id, status and song.
#[derive(Debug)]
pub struct ItemOutcome {
    pub item_id: String,
    pub status: String,
    pub song_path: String,
}

/// The songs of the failed items, in order, keeping only the requested
/// items when some are requested.
pub open spec fn retried_songs(
    items: Seq<(Seq<char>, Seq<char>, Seq<char>)>,
    requested: Option<Seq<Seq<char>>>,
) -> Seq<Seq<char>>
    decreases items.len(),
{
    if items.len() == 0 {
        Seq::empty()
    } else {
        let p = retried_songs(items.drop_last(), requested);
        let it = items.last();
        if it.1 == "failed"@ && (match requested {
            Some(ids) => ids.contains(it.0),
            None => true,
        }) {
            p.push(it.2)
        } else {
            p
        }
    }
}

/// The view of the items a retry reads.
pub open spec fn outcomes_view(items: Seq<ItemOutcome>) -> Seq<(Seq<char>, Seq<char>, Seq<char>)> {
    items.map_values(|it: ItemOutcome| (it.item_id@, it.status@, it.song_path@))
}

/// The songs a retry of a task's failed items runs again (see
/// [`retried_songs`]); none is an error.
pub fn retry_paths(items: &Vec<ItemOutcome>, requested: &Option<Vec<String>>) -> (r: Result<Vec<String>, String>)
    ensures
        ({
            let songs = retried_songs(
                outcomes_view(items@),
                match requested {
                    Some(ids) => Some(strings_view(ids@)),
                    None => None,
                },
            );
            match r {
                Ok(v) => strings_view(v@) == songs && songs.len() > 0,
                Err(e) => songs.len() == 0 && e@ == "No failed batch items are available to retry"@,
            }
        }),
{
    let ghost iv = outcomes_view(items@);
    let ghost rv = match requested {
        Some(ids) => Some(strings_view(ids@)),
        None => None,
    };
    let mut songs: Vec<String> = Vec::new();
    let mut i: usize = 0;
    while i < items.len()
        invariant
            0 <= i <= items@.len(),
            iv == outcomes_view(items@),
            rv == match requested {
                Some(ids) => Some(strings_view(ids@)),
                None => None,
            },
            strings_view(songs@) == retried_songs(iv.take(i as int), rv),
        decreases items.len() - i,
    {
        assert(iv.take(i + 1).drop_last() =~= iv.take(i as int));
        assert(iv.take(i + 1).last() == iv[i as int]);
        let it = &items[i];
        let wanted = match requested {
            Some(ids) => contains_text(ids, it.item_id.as_str()),
            None => true,
        };
        if str_eq(it.status.as_str(), "failed") && wanted {
            let ghost before = strings_view(songs@);
            songs.push(it.song_path.clone());
            assert(strings_view(songs@) =~= before.push(it.song_path@));
        }
        i = i + 1;
    }
    assert(iv.take(items@.len() as int) =~= iv);
    if songs.len() == 0 {
        return Err("No failed batch items are available to retry".to_string());
    }
    Ok(songs)
}

/// The statuses a batch item may be given: running, succeeded, failed,
/// skipped or cancelled, and queued too when `allow_queued`.
pub open spec fn item_status_allowed(status: Seq<char>, allow_queued: bool) -> bool {
    ||| (allow_queued && status == "queued"@)
    ||| status == "running"@
    ||| status == "succeeded"@
    ||| status == "failed"@
    ||| status == "skipped"@
    ||| status == "cancelled"@
}

/// Checks a batch item's new status (see [`item_status_allowed`]).
pub fn check_item_status(status: &str, allow_queued: bool) -> (r: Result<(), String>)
    ensures
        r is Ok <==> item_status_allowed(status@, allow_queued),
        r matches Err(e) ==> e@ == "Unsupported batch item status"@,
{
    if (allow_queued && str_eq(status, "queued")) || str_eq(status, "running") || str_eq(status, "succeeded")
        || str_eq(status, "failed") || str_eq(status, "skipped") || str_eq(status, "cancelled") {
        Ok(())
    } else {
        Err("Unsupported batch item status".to_string())
    }
}

/// Checks the status a finished batch task is given: succeeded, failed or
/// cancelled.
pub fn check_terminal_status(status: &str) -> (r: Result<(), String>)
    ensures
        r is Ok <==> (status@ == "succeeded"@ || status@ == "failed"@ || status@ == "cancelled"@),
        r matches Err(e) ==> e@ == "Unsupported terminal batch task status"@,
{
    if str_eq(status, "succeeded") || str_eq(status, "failed") || str_eq(status, "cancelled") {
        Ok(())
    } else {
        Err("Unsupported terminal batch task status".to_string())
    }
}

/// A size or time stored as an SQLite integer: the value, or `i64::MAX`
/// when it does not fit.
pub fn as_i64(value: u64) -> (r: i64)
    ensures
        r == (if value <= i64::MAX {
            value as i64
        } else {
            i64::MAX
        }),
{
    if value <= i64::MAX as u64 {
        value as i64
    } else {
        i64::MAX
    }
}

/// The current time in whole seconds since the Unix epoch (0 for a clock
/// set before the epoch).
pub fn now() -> (r: u64)
    ensures
        exists|millis: u128| millis <= max_duration_millis() && r == #[trigger] whole_seconds(millis),
{
    let millis = system_millis();
    seconds_from_millis(millis)
}

/// The current time in milliseconds since the Unix epoch (0 for a clock set
/// before the epoch).
pub fn now_millis() -> (r: u128)
    ensures
        r <= max_duration_millis(),
{
    system_millis()
}

} // verus!
