//! Searching the system's logs: log files by name, and the records of the
//! event log by what their rows hold.

use vstd::prelude::*;
use crate::pattern::{contains_term, filter_matches, matches_among, name_contains};
use crate::text::texts;
use crate::tree::{FileEntry, FsNode};
use crate::walker::{ActiveTaskCounter, find_directories_for_path, sent_from};

verus! {

/// One row of an event's data.
#[derive(Debug, Clone, PartialEq, Eq)]
pub struct Data {
    pub name: String,
    pub value: String,
}

/// The data of one event of the event log.
#[derive(Debug, Clone, PartialEq, Eq)]
pub struct EventData {
    pub data: Vec<Data>,
}

/// The text of a row's field that the log left out.
pub fn default_value() -> (text: String)
    ensures
        text@ == Seq::<char>::empty(),
{
    String::new()
}

/// The rows of an event whose data holds none: one row that says so.
pub fn default_vec_value() -> (rows: Vec<Data>)
    ensures
        rows@.len() == 1,
        rows@[0].name@ == "No Data"@,
        rows@[0].value@ == "No Data"@,
{
    let mut rows: Vec<Data> = Vec::new();
    rows.push(Data { name: "No Data".to_owned(), value: "No Data".to_owned() });
    rows
}

/// The data of an event that the log gave none for.
pub fn default_event_data_value() -> (event: EventData)
    ensures
        event.data@.len() == 1,
        event.data@[0].name@ == "No Data"@,
        event.data@[0].value@ == "No Data"@,
{
    EventData { data: default_vec_value() }
}

/// Some row of `event` holds `term` in its value.
pub open spec fn mentions(event: EventData, term: Seq<char>) -> bool {
    exists|k: int| 0 <= k < event.data@.len() && contains_term(#[trigger] event.data@[k].value@, term)
}

/// Whether some row of `event` holds `search_term` in its value.
pub fn event_mentions(event: &EventData, search_term: &str) -> (found: bool)
    ensures
        found == mentions(*event, search_term@),
{
    let mut k: usize = 0;
    while k < event.data.len()
        invariant
            k <= event.data.len(),
            forall|j: int| 0 <= j < k ==> !contains_term(#[trigger] event.data@[j].value@, search_term@),
        decreases event.data.len() - k,
    {
        if name_contains(event.data[k].value.as_str(), search_term) {
            return true;
        }
        k = k + 1;
    }
    false
}

/// `picked` lists, in rising order, the places of exactly those of the
/// first `n` events that mention `term`.
pub open spec fn picks_mentions(events: Seq<EventData>, term: Seq<char>, n: int, picked: Seq<usize>) -> bool {
    &&& forall|a: int, b: int| 0 <= a < b < picked.len() ==> picked[a] < picked[b]
    &&& forall|a: int| 0 <= a < picked.len() ==> picked[a] < n && mentions(events[picked[a] as int], term)
    &&& forall|k: int| 0 <= k < n && mentions(events[k], term) ==> picked.contains(k as usize)
}

/// The places of the events of the log that mention `search_term`, each
/// once, in the order of the log.
pub fn read_win_sys_log(events: &Vec<EventData>, search_term: &str) -> (picked: Vec<usize>)
    ensures
        picks_mentions(events@, search_term@, events@.len() as int, picked@),
{
    let mut picked: Vec<usize> = Vec::new();
    let mut i: usize = 0;
    while i < events.len()
        invariant
            i <= events.len(),
            picks_mentions(events@, search_term@, i as int, picked@),
        decreases events.len() - i,
    {
        if event_mentions(&events[i], search_term) {
            let ghost before = picked@;
            picked.push(i);
            proof {
                assert forall|k: int| 0 <= k < i + 1 && mentions(events@[k], search_term@) implies picked@.contains(
                    k as usize,
                ) by {
                    if k < i {
                        assert(before.contains(k as usize));
                        let w = choose|w: int| 0 <= w < before.len() && before[w] == k as usize;
                        assert(picked@[w] == k as usize);
                    } else {
                        assert(picked@[picked@.len() - 1] == k as usize);
                    }
                }
            }
        }
        i = i + 1;
    }
    picked
}

/// The names of the log files below `logs` whose name holds
/// `search_term`, in the order of a depth-first walk. Directories that
/// could not be listed are passed over; where `logs` itself is no
/// directory that could be listed, nothing is found.
pub fn search(search_term: &str, logs: &FsNode) -> (names: Vec<String>)
    ensures
        texts(names@) == matches_among(sent_from(*logs), search_term@, false),
{
    let mut files: Vec<FileEntry> = Vec::new();
    let mut thread_pool = ActiveTaskCounter::new();
    find_directories_for_path(logs, &mut files, &mut thread_pool);
    assert(files@ == Seq::<FileEntry>::empty() + sent_from(*logs));
    assert(files@ == sent_from(*logs));
    filter_matches(&files, search_term, false)
}

} // verus!
