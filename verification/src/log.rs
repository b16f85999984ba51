use std::collections::VecDeque;
use vstd::prelude::*;
use crate::text::{
    chars_of, lemma_scan_concat, lemma_scan_open_piece, lemma_scan_without_separator, split_scan,
    string_from_range, trim, trim_bounds,
};

verus! {

/// Most entries the in-app event log holds; older entries are dropped first.
pub const MAX_LOG_ENTRIES: usize = 500;

/// One log entry as plain text: (level, message).
pub type EntryView = (Seq<char>, Seq<char>);

/// The retained window of a history of entries: its last `MAX_LOG_ENTRIES`
/// elements, or all of it when it is shorter.
pub open spec fn keep_recent(history: Seq<EntryView>) -> Seq<EntryView> {
    if history.len() > MAX_LOG_ENTRIES {
        history.subrange(history.len() - MAX_LOG_ENTRIES, history.len() as int)
    } else {
        history
    }
}

pub open spec fn entry_view(e: (String, String)) -> EntryView {
    (e.0@, e.1@)
}

/// Bounded ring buffer of log messages captured from the tracing output.
pub struct SharedLog {
    entries: VecDeque<(String, String)>,
}

impl View for SharedLog {
    type V = Seq<EntryView>;

    closed spec fn view(&self) -> Seq<EntryView> {
        self.entries@.map_values(|e: (String, String)| entry_view(e))
    }
}

impl SharedLog {
    #[verifier::type_invariant]
    spec fn bounded(&self) -> bool {
        self.entries@.len() <= MAX_LOG_ENTRIES
    }

    /// An empty log.
    pub fn new() -> (log: Self)
        ensures
            log@ == Seq::<EntryView>::empty(),
    {
        let log = SharedLog { entries: VecDeque::with_capacity(MAX_LOG_ENTRIES) };
        assert(log@ =~= Seq::<EntryView>::empty());
        log
    }

    /// Appends one entry; when the log is full the oldest entry is dropped.
    pub fn push(&mut self, level: String, message: String)
        ensures
            final(self)@ == keep_recent(old(self)@.push((level@, message@))),
            final(self)@.len() <= MAX_LOG_ENTRIES,
    {
        proof {
            use_type_invariant(&*self);
        }
        let ghost before = self@;
        let mut entries: VecDeque<(String, String)> = VecDeque::new();
        std::mem::swap(&mut entries, &mut self.entries);
        if entries.len() >= MAX_LOG_ENTRIES {
            entries.pop_front();
        }
        entries.push_back((level, message));
        proof {
            let h = before.push((level@, message@));
            let now = entries@.map_values(|e: (String, String)| entry_view(e));
            assert(now =~= keep_recent(h));
        }
        self.entries = entries;
    }

    /// All entries, oldest first.
    pub fn entries(&self) -> (out: Vec<(String, String)>)
        ensures
            out@.map_values(|e: (String, String)| entry_view(e)) == self@,
            out@.len() <= MAX_LOG_ENTRIES,
    {
        proof {
            use_type_invariant(self);
        }
        let mut out: Vec<(String, String)> = Vec::new();
        let n = self.entries.len();
        for i in 0..n
            invariant
                n == self.entries@.len(),
                out@.len() == i,
                forall|j: int|
                    0 <= j < i ==> #[trigger] entry_view(out@[j]) == entry_view(self.entries@[j]),
        {
            let e = &self.entries[i];
            out.push((e.0.clone(), e.1.clone()));
        }
        proof {
            assert(out@.map_values(|e: (String, String)| entry_view(e)) =~= self@);
        }
        out
    }

    /// Number of entries held.
    pub fn len(&self) -> (n: usize)
        ensures
            n == self@.len(),
            n <= MAX_LOG_ENTRIES,
    {
        proof {
            use_type_invariant(self);
        }
        self.entries.len()
    }
}

/// What `String::from_utf8_lossy` makes of `bytes`: the decoded text, with
/// each invalid sequence replaced by U+FFFD.
pub uninterp spec fn utf8_lossy(bytes: Seq<u8>) -> Seq<char>;

/// Calls `String::from_utf8_lossy` and takes ownership of the text.
///
/// Claimed of it: the result is a function of the bytes, and valid UTF-8 is
/// decoded as is (its documentation). How invalid input is replaced is left
/// to the name.
#[verifier::external_body]
fn lossy_text(bytes: &[u8]) -> (s: String)
    ensures
        s@ == utf8_lossy(bytes@),
        vstd::utf8::valid_utf8(bytes@) ==> s@ == vstd::utf8::decode_utf8(bytes@),
{
    String::from_utf8_lossy(bytes).into_owned()
}

/// `pat` occurs in `text` at position `i`.
pub open spec fn occurs_at(text: Seq<char>, pat: Seq<char>, i: int) -> bool {
    0 <= i && i + pat.len() <= text.len() && text.subrange(i, i + pat.len()) == pat
}

/// `pat` occurs somewhere in `text` (what `str::contains` tests).
pub open spec fn contains(text: Seq<char>, pat: Seq<char>) -> bool {
    exists|i: int| occurs_at(text, pat, i)
}

/// The level of a formatted tracing line: the first of ERROR, WARN, INFO and
/// DEBUG that appears as a space-delimited word, else TRACE.
pub open spec fn level_of(line: Seq<char>) -> Seq<char> {
    if contains(line, " ERROR "@) {
        "ERROR"@
    } else if contains(line, " WARN "@) {
        "WARN"@
    } else if contains(line, " INFO "@) {
        "INFO"@
    } else if contains(line, " DEBUG "@) {
        "DEBUG"@
    } else {
        "TRACE"@
    }
}

/// The log entries made from completed raw lines: each decoded and trimmed,
/// blank ones left out, tagged with their level.
pub open spec fn log_entries(raw_lines: Seq<Seq<u8>>) -> Seq<EntryView>
    decreases raw_lines.len(),
{
    if raw_lines.len() == 0 {
        Seq::empty()
    } else {
        let rest = log_entries(raw_lines.drop_last());
        let text = trim(utf8_lossy(raw_lines.last()));
        if text.len() > 0 {
            rest.push((level_of(text), text))
        } else {
            rest
        }
    }
}

/// Whether `pat` occurs in `text`.
pub fn contains_chars(text: &Vec<char>, pat: &Vec<char>) -> (b: bool)
    ensures
        b == contains(text@, pat@),
{
    if pat.len() == 0 {
        assert(text@.subrange(0, 0) =~= pat@);
        assert(occurs_at(text@, pat@, 0));
        return true;
    }
    let mut i: usize = 0;
    while i <= text.len() && pat.len() <= text.len() - i
        invariant
            1 <= pat@.len(),
            i <= text@.len() + 1,
            forall|k: int| 0 <= k < i ==> !occurs_at(text@, pat@, k),
        decreases text@.len() + 1 - i,
    {
        let mut j: usize = 0;
        let mut same = true;
        while j < pat.len()
            invariant
                i + pat@.len() <= text@.len(),
                j <= pat@.len(),
                pat@.len() == pat.len(),
                text@.len() == text.len(),
                same == (forall|q: int| 0 <= q < j ==> text@[i + q] == pat@[q]),
            decreases pat@.len() - j,
        {
            if text[i + j] != pat[j] {
                same = false;
            }
            j = j + 1;
        }
        if same {
            assert(text@.subrange(i as int, i + pat@.len()) =~= pat@);
            assert(occurs_at(text@, pat@, i as int));
            return true;
        }
        assert(!(text@.subrange(i as int, i + pat@.len()) =~= pat@)) by {
            let q = choose|q: int| 0 <= q < pat@.len() && text@[i + q] != pat@[q];
            assert(text@.subrange(i as int, i + pat@.len())[q] != pat@[q]);
        }
        i = i + 1;
    }
    assert forall|k: int| !occurs_at(text@, pat@, k) by {
        if 0 <= k && k + pat@.len() <= text@.len() {
            assert(k < i);
        }
    }
    false
}

/// The level name of a formatted tracing line.
pub fn classify_level(line: &Vec<char>) -> (level: String)
    ensures
        level@ == level_of(line@),
{
    if contains_chars(line, &chars_of(" ERROR ")) {
        "ERROR".to_owned()
    } else if contains_chars(line, &chars_of(" WARN ")) {
        "WARN".to_owned()
    } else if contains_chars(line, &chars_of(" INFO ")) {
        "INFO".to_owned()
    } else if contains_chars(line, &chars_of(" DEBUG ")) {
        "DEBUG".to_owned()
    } else {
        "TRACE".to_owned()
    }
}

/// Byte stream of formatted tracing output cut into log entries, one per
/// line; an unfinished line waits for the rest of its bytes.
pub struct LogWriter {
    pending: Vec<u8>,
}

impl View for LogWriter {
    type V = Seq<u8>;

    closed spec fn view(&self) -> Seq<u8> {
        self.pending@
    }
}

/// The newline byte.
pub open spec fn newline() -> u8 {
    0x0a
}

impl LogWriter {
    #[verifier::type_invariant]
    spec fn holds_partial_line(&self) -> bool {
        !self.pending@.contains(newline())
    }

    /// A writer with nothing pending.
    pub fn new() -> (w: Self)
        ensures
            w@ == Seq::<u8>::empty(),
    {
        LogWriter { pending: Vec::new() }
    }

    /// The bytes of the unfinished line.
    pub fn pending(&self) -> (p: &Vec<u8>)
        ensures
            p@ == self@,
    {
        &self.pending
    }

    /// Takes more output; returns the entries of the lines it completes, in
    /// order, and keeps the unfinished rest.
    pub fn write(&mut self, bytes: &[u8]) -> (out: Vec<(String, String)>)
        ensures
            final(self)@ == split_scan(old(self)@ + bytes@, newline()).1,
            out@.map_values(|e: (String, String)| entry_view(e)) == log_entries(
                split_scan(old(self)@ + bytes@, newline()).0,
            ),
            forall|k: int|
                #![trigger split_scan(old(self)@ + bytes@, newline()).0[k]]
                0 <= k < split_scan(old(self)@ + bytes@, newline()).0.len()
                    && vstd::utf8::valid_utf8(split_scan(old(self)@ + bytes@, newline()).0[k])
                    ==> utf8_lossy(split_scan(old(self)@ + bytes@, newline()).0[k])
                    == vstd::utf8::decode_utf8(split_scan(old(self)@ + bytes@, newline()).0[k]),
    {
        proof {
            use_type_invariant(&*self);
        }
        let ghost start = self@;
        let ghost all = start + bytes@;
        let mut cur: Vec<u8> = Vec::new();
        std::mem::swap(&mut cur, &mut self.pending);
        proof {
            lemma_scan_without_separator(start, newline());
            assert(all.take(start.len() as int) =~= start);
        }
        let mut out: Vec<(String, String)> = Vec::new();
        let ghost mut done: Seq<Seq<u8>> = Seq::empty();
        let n = bytes.len();
        let mut i: usize = 0;
        while i < n
            invariant
                n == bytes@.len(),
                all == start + bytes@,
                i <= n,
                split_scan(all.take(start.len() + i), newline()) == (done, cur@),
                out@.map_values(|e: (String, String)| entry_view(e)) == log_entries(done),
                forall|k: int|
                    #![trigger done[k]]
                    0 <= k < done.len() && vstd::utf8::valid_utf8(done[k]) ==> utf8_lossy(done[k])
                        == vstd::utf8::decode_utf8(done[k]),
            decreases n - i,
        {
            let b = bytes[i];
            assert(all.take(start.len() + i + 1).drop_last() =~= all.take(start.len() + i));
            assert(all.take(start.len() + i + 1).last() == b);
            if b == 0x0a {
                let text = lossy_text(cur.as_slice());
                let chars = chars_of(text.as_str());
                let (a, e) = trim_bounds(&chars, 0, chars.len());
                proof {
                    assert(chars@.subrange(0, chars@.len() as int) =~= chars@);
                    assert(done.push(cur@).drop_last() =~= done);
                }
                if a < e {
                    let line = string_from_range(&chars, a, e);
                    let line_chars = chars_of(line.as_str());
                    let level = classify_level(&line_chars);
                    let ghost before = out@;
                    out.push((level, line));
                    proof {
                        assert(out@.map_values(|e: (String, String)| entry_view(e)) =~= before.map_values(
                            |e: (String, String)| entry_view(e),
                        ).push(entry_view((level, line))));
                    }
                }
                proof {
                    let prev = done;
                    done = done.push(cur@);
                    assert(forall|k: int| 0 <= k < prev.len() ==> done[k] == prev[k]);
                }
                cur = Vec::new();
            } else {
                cur.push(b);
            }
            i = i + 1;
        }
        assert(all.take(start.len() + n) =~= all);
        proof {
            lemma_scan_open_piece(all, newline());
        }
        self.pending = cur;
        out
    }
}

/// The entries of two runs of completed lines are those of each run in turn.
pub proof fn lemma_log_entries_concat(d1: Seq<Seq<u8>>, d2: Seq<Seq<u8>>)
    ensures
        log_entries(d1 + d2) == log_entries(d1) + log_entries(d2),
    decreases d2.len(),
{
    if d2.len() == 0 {
        assert(d1 + d2 =~= d1);
        assert(log_entries(d1) + log_entries(d2) =~= log_entries(d1));
    } else {
        lemma_log_entries_concat(d1, d2.drop_last());
        assert((d1 + d2).drop_last() =~= d1 + d2.drop_last());
        assert((d1 + d2).last() == d2.last());
        let text = trim(utf8_lossy(d2.last()));
        if text.len() > 0 {
            assert((log_entries(d1) + log_entries(d2.drop_last())).push((level_of(text), text))
                =~= log_entries(d1) + log_entries(d2.drop_last()).push((level_of(text), text)));
        }
    }
}

/// Output may arrive in any chunks: writing `a` and then `b` yields the same
/// entries, in the same order, and leaves the same unfinished line as
/// writing `a + b` at once.
pub proof fn lemma_write_chunking(pending: Seq<u8>, a: Seq<u8>, b: Seq<u8>)
    requires
        !pending.contains(newline()),
    ensures
        ({
            let (done1, open1) = split_scan(pending + a, newline());
            let (done2, open2) = split_scan(open1 + b, newline());
            let (done, open) = split_scan(pending + (a + b), newline());
            &&& open == open2
            &&& log_entries(done) == log_entries(done1) + log_entries(done2)
        }),
{
    assert(pending + (a + b) =~= (pending + a) + b);
    lemma_scan_concat(pending + a, b, newline());
    let (done1, open1) = split_scan(pending + a, newline());
    let (done2, open2) = split_scan(open1 + b, newline());
    lemma_log_entries_concat(done1, done2);
}

/// The log is the latest part of everything pushed: pushing onto the kept
/// window keeps what pushing onto the whole history would.
pub proof fn lemma_log_keeps_latest(history: Seq<EntryView>, e: EntryView)
    ensures
        keep_recent(keep_recent(history).push(e)) == keep_recent(history.push(e)),
{
    let k = keep_recent(history).push(e);
    assert(keep_recent(k) =~= keep_recent(history.push(e)));
}

/// The kept window is a suffix of the history, `MAX_LOG_ENTRIES` long when
/// the history is longer.
pub proof fn lemma_log_window(history: Seq<EntryView>)
    ensures
        keep_recent(history).len() == if history.len() > MAX_LOG_ENTRIES {
            MAX_LOG_ENTRIES as int
        } else {
            history.len() as int
        },
        history.subrange(history.len() - keep_recent(history).len(), history.len() as int)
            == keep_recent(history),
{
    assert(history.subrange(0, history.len() as int) =~= history);
}

/// Largest log file, in bytes, before it is rotated to a backup.
pub const MAX_FILE_SIZE: u64 = 1048576;

/// Size accounting of the rolling log file: after appending a line of
/// `line_len` bytes and its newline to a file of `size` bytes, the new size
/// and whether the file has grown past `MAX_FILE_SIZE` and is to be rotated.
pub fn size_after_append(size: u64, line_len: usize) -> (r: (u64, bool))
    requires
        size + line_len + 1 <= u64::MAX,
    ensures
        r.0 == size + line_len + 1,
        r.1 == (r.0 > MAX_FILE_SIZE),
{
    let new_size = size + line_len as u64 + 1;
    (new_size, new_size > MAX_FILE_SIZE)
}

/// Index of the first entry the log panel shows: the most recent entries
/// that fit in a panel `panel_height` rows tall (three rows go to its frame
/// and title).
pub fn log_panel_first_entry(entry_count: usize, panel_height: u16) -> (first: usize)
    ensures
        first == if entry_count > panel_height - 3 && panel_height >= 3 {
            entry_count - (panel_height - 3)
        } else if panel_height < 3 {
            entry_count as int
        } else {
            0
        },
{
    let max_lines = panel_height.saturating_sub(3) as usize;
    entry_count.saturating_sub(max_lines)
}

} // verus!
