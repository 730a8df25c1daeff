use vstd::prelude::*;
use crate::buffer::{
    buffer_lines, join_lines, lines_of, text_lines, total_chars, total_words, Cursor, TextBuffer,
};
use crate::calendar::{date_of_day, day_after, day_before, epoch_ms_to_date, next_day, prev_day, MS_PER_DAY};
use crate::text::{chars_of, contains, find_in, lower_of, lowercase};

verus! {

/// The first of `lines` whose lowercase form holds `query`.
pub open spec fn first_match(lines: Seq<Seq<char>>, query: Seq<char>) -> Option<Seq<char>>
    decreases lines.len(),
{
    if lines.len() == 0 {
        None
    } else if contains(lower_of(lines[0]), query) {
        Some(lines[0])
    } else {
        first_match(lines.drop_first(), query)
    }
}

/// For each entry `(date, content)` in order that has a line matching `query`, the date
/// and the first such line.
pub open spec fn matches_of(entries: Seq<(Seq<char>, Seq<char>)>, query: Seq<char>) -> Seq<
    (Seq<char>, Seq<char>),
>
    decreases entries.len(),
{
    if entries.len() == 0 {
        Seq::empty()
    } else {
        let r = matches_of(entries.drop_last(), query);
        match first_match(text_lines(entries.last().1), query) {
            Some(line) => r.push((entries.last().0, line)),
            None => r,
        }
    }
}

/// At most the first ten items of `s`.
pub open spec fn first_ten<T>(s: Seq<T>) -> Seq<T> {
    if s.len() <= 10 {
        s
    } else {
        s.subrange(0, 10)
    }
}

/// The texts of a sequence of pairs of strings.
pub open spec fn pair_texts(v: Seq<(String, String)>) -> Seq<(Seq<char>, Seq<char>)> {
    v.map_values(|p: (String, String)| (p.0@, p.1@))
}

/// Whether a lowercased line holds a lowercased query.
pub fn line_matches(line_lower: &str, query_lower: &str) -> (r: bool)
    ensures
        r == contains(line_lower@, query_lower@),
{
    find_in(&chars_of(line_lower), &chars_of(query_lower))
}

/// The first line of `content` whose lowercase form holds `query_lower`.
fn first_matching_line(content: &str, query_lower: &str) -> (r: Option<String>)
    ensures
        match r {
            Some(line) => first_match(text_lines(content@), query_lower@) == Some(line@),
            None => first_match(text_lines(content@), query_lower@) is None,
        },
{
    let lines = lines_of(content);
    let ghost t = lines@.map_values(|s: String| s@);
    assert(t.subrange(0, t.len() as int) =~= t);
    let mut i: usize = 0;
    while i < lines.len()
        invariant
            i <= lines@.len(),
            t == lines@.map_values(|s: String| s@),
            t == text_lines(content@),
            first_match(t, query_lower@) == first_match(t.subrange(i as int, t.len() as int), query_lower@),
        decreases lines@.len() - i,
    {
        let lower = lowercase(lines[i].as_str());
        let ghost rest = t.subrange(i as int, t.len() as int);
        assert(rest[0] == t[i as int]);
        assert(rest.drop_first() =~= t.subrange(i + 1, t.len() as int));
        if line_matches(lower.as_str(), query_lower) {
            return Some(lines[i].clone());
        }
        i = i + 1;
    }
    None
}

/// The journal: one entry per date, and a search over entries.
#[derive(Clone, Debug)]
pub struct JournalState {
    pub buffer: TextBuffer,
    /// The date of the open entry, `YYYY-MM-DD`.
    pub current_date: String,
    pub search_query: String,
    /// Matches of the last search: a date and its first matching line.
    pub search_results: Vec<(String, String)>,
    /// Index of the selected match.
    pub search_cursor: usize,
}

impl JournalState {
    /// No entry open, no date, no search.
    pub fn new() -> (r: JournalState)
        ensures
            r.buffer.text() == seq![Seq::<char>::empty()],
            r.buffer.cursor == (Cursor { line: 0, col: 0 }),
            r.buffer.wf(),
            !r.buffer.modified,
            r.current_date@ == Seq::<char>::empty(),
            r.search_query@ == Seq::<char>::empty(),
            r.search_results@.len() == 0,
            r.search_cursor == 0,
    {
        JournalState {
            buffer: TextBuffer::new(),
            current_date: String::new(),
            search_query: String::new(),
            search_results: Vec::new(),
            search_cursor: 0,
        }
    }

    /// Sets the date to the day of the instant `now_ms` (milliseconds since the epoch).
    pub fn jump_to_today(&mut self, now_ms: u64)
        ensures
            final(self).current_date@ == date_of_day((now_ms / MS_PER_DAY) as nat),
            final(self).buffer == old(self).buffer,
            final(self).search_query == old(self).search_query,
            final(self).search_results == old(self).search_results,
            final(self).search_cursor == old(self).search_cursor,
    {
        self.current_date = epoch_ms_to_date(now_ms);
    }

    /// Selects the previous match, if any.
    pub fn search_cursor_up(&mut self)
        ensures
            final(self).search_cursor == if old(self).search_cursor > 0 {
                (old(self).search_cursor - 1) as usize
            } else {
                0
            },
            final(self).buffer == old(self).buffer,
            final(self).current_date == old(self).current_date,
            final(self).search_query == old(self).search_query,
            final(self).search_results == old(self).search_results,
    {
        if self.search_cursor > 0 {
            self.search_cursor = self.search_cursor - 1;
        }
    }

    /// Selects the next match, if any.
    pub fn search_cursor_down(&mut self)
        ensures
            final(self).search_cursor == if old(self).search_cursor + 1 < old(
                self,
            ).search_results@.len() {
                (old(self).search_cursor + 1) as usize
            } else {
                old(self).search_cursor
            },
            final(self).buffer == old(self).buffer,
            final(self).current_date == old(self).current_date,
            final(self).search_query == old(self).search_query,
            final(self).search_results == old(self).search_results,
    {
        if !self.search_results.is_empty() && self.search_cursor < self.search_results.len() - 1 {
            self.search_cursor = self.search_cursor + 1;
        }
    }

    /// The text to store for the open entry: present where the entry was modified or holds
    /// a word.
    pub fn save_entry(&self) -> (r: Option<String>)
        requires
            total_chars(self.buffer.text()) <= usize::MAX,
        ensures
            match r {
                Some(text) => (self.buffer.modified || total_words(self.buffer.text()) > 0)
                    && text@ == join_lines(self.buffer.text()),
                None => !self.buffer.modified && total_words(self.buffer.text()) == 0,
            },
    {
        if self.buffer.modified || self.buffer.word_count() > 0 {
            Some(self.buffer.to_string())
        } else {
            None
        }
    }

    /// Moves to the day before; the entry for it is loaded next.
    pub fn prev_day(&mut self)
        ensures
            final(self).current_date@ == day_before(old(self).current_date@),
            final(self).buffer == old(self).buffer,
            final(self).search_query == old(self).search_query,
            final(self).search_results == old(self).search_results,
            final(self).search_cursor == old(self).search_cursor,
    {
        self.current_date = prev_day(self.current_date.as_str());
    }

    /// Moves to the day after; the entry for it is loaded next.
    pub fn next_day(&mut self)
        ensures
            final(self).current_date@ == day_after(old(self).current_date@),
            final(self).buffer == old(self).buffer,
            final(self).search_query == old(self).search_query,
            final(self).search_results == old(self).search_results,
            final(self).search_cursor == old(self).search_cursor,
    {
        self.current_date = next_day(self.current_date.as_str());
    }

    /// Searches `entries`, pairs of a date and its entry's text in index order, for lines
    /// that hold the query regardless of case. Keeps at most ten matches, one per date, and
    /// selects the first. An empty query finds nothing.
    pub fn search_entries(&mut self, entries: &[(String, String)])
        ensures
            final(self).search_cursor == 0,
            old(self).search_query@.len() == 0 ==> final(self).search_results@.len() == 0,
            old(self).search_query@.len() > 0 ==> pair_texts(final(self).search_results@)
                == first_ten(matches_of(pair_texts(entries@), lower_of(old(self).search_query@))),
            final(self).buffer == old(self).buffer,
            final(self).current_date == old(self).current_date,
            final(self).search_query == old(self).search_query,
    {
        self.search_results = Vec::new();
        self.search_cursor = 0;
        if self.search_query.as_str().is_empty() {
            return;
        }
        let query = lowercase(self.search_query.as_str());
        let ghost q = lower_of(self.search_query@);
        let ghost all = pair_texts(entries@);
        let mut i: usize = 0;
        while i < entries.len()
            invariant
                i <= entries@.len(),
                all == pair_texts(entries@),
                query@ == q,
                pair_texts(self.search_results@) == first_ten(matches_of(all.subrange(0, i as int), q)),
                self.search_cursor == 0,
                self.buffer == old(self).buffer,
                self.current_date == old(self).current_date,
                self.search_query == old(self).search_query,
            decreases entries@.len() - i,
        {
            let ghost pre = all.subrange(0, i as int);
            assert(all.subrange(0, i + 1).drop_last() =~= pre);
            assert(all.subrange(0, i + 1).last() == (entries@[i as int].0@, entries@[i as int].1@));
            if self.search_results.len() < 10 {
                let found = first_matching_line(entries[i].1.as_str(), query.as_str());
                match found {
                    Some(line) => {
                        let ghost before = self.search_results@;
                        self.search_results.push((entries[i].0.clone(), line));
                        assert(pair_texts(self.search_results@) =~= pair_texts(before).push(
                            (entries@[i as int].0@, line@),
                        ));
                    },
                    None => {},
                }
            } else {
                assert(first_ten(matches_of(all.subrange(0, i + 1), q)) =~= first_ten(
                    matches_of(pre, q),
                ));
            }
            i = i + 1;
        }
        assert(all.subrange(0, i as int) =~= all);
    }

    /// Opens the selected match: the date becomes its date and the search is cleared.
    /// `None`, with nothing changed, where no match is selected; else the text to store for
    /// the entry that was open, as `save_entry` gives it. The new date's entry is loaded
    /// next.
    pub fn jump_to_search_result(&mut self) -> (r: Option<Option<String>>)
        requires
            total_chars(old(self).buffer.text()) <= usize::MAX,
        ensures
            old(self).search_cursor < old(self).search_results@.len() ==> {
                &&& r matches Some(save) && match save {
                    Some(text) => (old(self).buffer.modified || total_words(old(self).buffer.text())
                        > 0) && text@ == join_lines(old(self).buffer.text()),
                    None => !old(self).buffer.modified && total_words(old(self).buffer.text()) == 0,
                }
                &&& final(self).current_date@
                    == old(self).search_results@[old(self).search_cursor as int].0@
                &&& final(self).search_results@.len() == 0
                &&& final(self).search_query@.len() == 0
            },
            old(self).search_cursor >= old(self).search_results@.len() ==> r is None && *final(self)
                == *old(self),
            final(self).buffer == old(self).buffer,
            final(self).search_cursor == old(self).search_cursor,
    {
        if self.search_cursor < self.search_results.len() {
            let save = self.save_entry();
            let date = self.search_results[self.search_cursor].0.clone();
            self.current_date = date;
            self.search_results = Vec::new();
            self.search_query = String::new();
            Some(save)
        } else {
            None
        }
    }

    /// Opens the text `content` read for the current date, or an empty entry where there
    /// was none; the entry starts unmodified.
    pub fn load_entry(&mut self, content: Option<String>)
        ensures
            final(self).buffer.text() == match content {
                Some(c) => buffer_lines(c@),
                None => seq![Seq::<char>::empty()],
            },
            final(self).buffer.cursor == (Cursor { line: 0, col: 0 }),
            final(self).buffer.wf(),
            !final(self).buffer.modified,
            final(self).current_date == old(self).current_date,
            final(self).search_query == old(self).search_query,
            final(self).search_results == old(self).search_results,
            final(self).search_cursor == old(self).search_cursor,
    {
        match content {
            Some(c) => {
                self.buffer = TextBuffer::from_text(c.as_str());
            },
            None => {
                self.buffer = TextBuffer::new();
            },
        }
        self.buffer.modified = false;
    }
}

} // verus!
