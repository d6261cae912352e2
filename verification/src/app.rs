//! The browser's state and how keys, scan results and directory changes move it.
//!
//! Reading the terminal, scanning, deleting and resolving paths happen outside;
//! `handle_key` answers with an [`Action`] saying which of them is due.
use vstd::prelude::*;
use vstd::string::*;
use crate::format::{size_text, pad_left, format_size, pad_left_exec, push_char};
use crate::percent::{percent_text, percent_text_exec};
use crate::scanner::FileEntry;
use crate::sort::{sort_entries, stably_sorted};
use crate::text::{lowercase, occurs_in, to_lowercase, chars_of, chars_contain, string_of};

verus! {

/// Interface language.
#[derive(PartialEq, Eq, Clone, Copy, Debug, Structural)]
pub enum Language {
    English,
    Russian,
}

/// What the keys currently act on.
#[derive(PartialEq, Eq, Clone, Copy, Debug, Structural)]
pub enum AppMode {
    Browse,
    ConfirmDelete,
    InputPath,
    Filter,
    Help,
}

/// How the entries are ordered.
#[derive(PartialEq, Eq, Clone, Copy, Debug, Structural)]
pub enum SortMode {
    Size,
    Name,
}

/// A key press.
#[derive(PartialEq, Eq, Clone, Copy, Debug, Structural)]
pub enum Key {
    Char(char),
    Up,
    Down,
    Enter,
    Backspace,
    Esc,
    Other,
}

/// Work that a key leaves to the caller, which can reach the file system.
#[derive(Debug)]
pub enum Action {
    /// Nothing to do.
    Nothing,
    /// Scan the current directory again (`load_directory` has been called), and tag
    /// the result with `scan_id`.
    Scan,
    /// Join this name to the current directory; if that is a directory, move there
    /// and call `change_directory`.
    OpenEntry(String),
    /// If the current directory has a parent, move there and call `change_directory`.
    OpenParent,
    /// If this path exists and is a directory, move there and call `change_directory`.
    OpenPath(String),
    /// Delete this entry of the current directory; if that succeeds, call
    /// `load_directory` and scan again.
    Delete(String),
}

/// An [`Action`] with its text as characters.
pub enum Command {
    Nothing,
    Scan,
    OpenEntry(Seq<char>),
    OpenParent,
    OpenPath(Seq<char>),
    Delete(Seq<char>),
}

impl View for Action {
    type V = Command;

    open spec fn view(&self) -> Command {
        match self {
            Action::Nothing => Command::Nothing,
            Action::Scan => Command::Scan,
            Action::OpenEntry(s) => Command::OpenEntry(s@),
            Action::OpenParent => Command::OpenParent,
            Action::OpenPath(s) => Command::OpenPath(s@),
            Action::Delete(s) => Command::Delete(s@),
        }
    }
}

/// The browser's state.
pub struct App {
    /// One display line per shown entry.
    pub nodes: Vec<String>,
    /// The highlighted line.
    pub selected: Option<usize>,
    pub mode: AppMode,
    /// The path being typed after `g`.
    pub input_buffer: String,
    /// The filter being typed after `/`.
    pub filter_query: String,
    /// A scan has been asked for and its result has not arrived.
    pub loading: bool,
    /// The number of the scan asked for last; a result tagged with another number
    /// is stale.
    pub scan_id: u64,
    /// The name to delete once confirmed.
    pub delete_target: Option<String>,
    /// The size of the current directory.
    pub total_size: u64,
    pub sort_mode: SortMode,
    /// The entries of the current directory, in display order.
    pub raw_entries: Vec<FileEntry>,
    pub lang: Language,
}

/// The state of an [`App`], its texts as characters.
pub struct AppView {
    pub nodes: Seq<Seq<char>>,
    pub selected: Option<usize>,
    pub mode: AppMode,
    pub input_buffer: Seq<char>,
    pub filter_query: Seq<char>,
    pub loading: bool,
    pub scan_id: u64,
    pub delete_target: Option<Seq<char>>,
    pub total_size: u64,
    pub sort_mode: SortMode,
    pub raw_entries: Seq<FileEntry>,
    pub lang: Language,
}

/// The characters of each string.
pub open spec fn lines_view(v: Seq<String>) -> Seq<Seq<char>> {
    v.map_values(|s: String| s@)
}

impl View for App {
    type V = AppView;

    open spec fn view(&self) -> AppView {
        AppView {
            nodes: lines_view(self.nodes@),
            selected: self.selected,
            mode: self.mode,
            input_buffer: self.input_buffer@,
            filter_query: self.filter_query@,
            loading: self.loading,
            scan_id: self.scan_id,
            delete_target: match self.delete_target {
                Some(s) => Some(s@),
                None => None,
            },
            total_size: self.total_size,
            sort_mode: self.sort_mode,
            raw_entries: self.raw_entries@,
            lang: self.lang,
        }
    }
}

/// The other language.
pub open spec fn toggled(l: Language) -> Language {
    match l {
        Language::English => Language::Russian,
        Language::Russian => Language::English,
    }
}

/// The icon of an entry: a folder for directories, a disk for files.
pub open spec fn icon(is_dir: bool) -> char {
    if is_dir {
        '📁'
    } else {
        '💾'
    }
}

/// The display line of an entry: size right-aligned in 8, two spaces, its share of
/// the total, "%", two spaces, the icon, two spaces, the name.
pub open spec fn display_line(e: FileEntry, total: u64) -> Seq<char> {
    pad_left(size_text(e.size), 8) + seq![' ', ' '] + percent_text(e.size, total) + seq![
        '%',
        ' ',
        ' ',
        icon(e.is_dir),
        ' ',
        ' ',
    ] + e.name@
}

/// An entry is shown when the filter is empty or, both lowercased, its name
/// contains the filter.
pub open spec fn shown(filter: Seq<char>, e: FileEntry) -> bool {
    filter.len() == 0 || occurs_in(lowercase(filter), lowercase(e.name@))
}

/// The display lines of the shown entries, in order.
pub open spec fn display_lines(entries: Seq<FileEntry>, filter: Seq<char>, total: u64) -> Seq<
    Seq<char>,
> {
    entries.filter(|e: FileEntry| shown(filter, e)).map_values(|e: FileEntry| display_line(e, total))
}

/// One of the two icons that stand before the name in a display line.
pub open spec fn is_icon(c: char) -> bool {
    c == '📁' || c == '💾'
}

/// The index of the first icon at or after `k`, or the line's length if none.
pub open spec fn first_icon_from(line: Seq<char>, k: int) -> int
    decreases line.len() - k,
{
    if k >= line.len() {
        line.len() as int
    } else if is_icon(line[k]) {
        k
    } else {
        first_icon_from(line, k + 1)
    }
}

/// The name a display line shows: what follows its first icon and the two spaces
/// after it; none when the line has no icon with two characters after it.
pub open spec fn line_name(line: Seq<char>) -> Option<Seq<char>> {
    let k = first_icon_from(line, 0);
    if k + 3 <= line.len() {
        Some(line.skip(k + 3))
    } else {
        None
    }
}

/// The name shown on the highlighted line, when a line is highlighted and shows
/// one.
pub open spec fn highlighted_name(v: AppView) -> Option<Seq<char>> {
    match v.selected {
        Some(i) => if i < v.nodes.len() {
            line_name(v.nodes[i as int])
        } else {
            None
        },
        None => None,
    }
}

/// The number of the scan after scan `id`.
pub open spec fn next_scan_id(id: u64) -> u64 {
    if id == u64::MAX {
        0
    } else {
        (id + 1) as u64
    }
}

/// `post` is `pre` with its entries stably sorted by `pre`'s sort mode and its
/// display lines rebuilt.
pub open spec fn resorted(pre: AppView, post: AppView) -> bool {
    &&& stably_sorted(pre.sort_mode, pre.raw_entries, post.raw_entries)
    &&& post == AppView {
        raw_entries: post.raw_entries,
        nodes: display_lines(post.raw_entries, pre.filter_query, pre.total_size),
        ..pre
    }
}

/// A scan's entries and total are taken in: sorted by the current order, listed
/// through the current filter, the first line highlighted, nothing pending.
pub open spec fn scan_taken(pre: AppView, entries: Seq<FileEntry>, total: u64, post: AppView) -> bool {
    &&& stably_sorted(pre.sort_mode, entries, post.raw_entries)
    &&& post == AppView {
        raw_entries: post.raw_entries,
        nodes: display_lines(post.raw_entries, pre.filter_query, total),
        total_size: total,
        selected: Some(0),
        loading: false,
        ..pre
    }
}

/// A failed scan empties the listing, highlights the first line and leaves nothing
/// pending.
pub open spec fn scan_failed(pre: AppView, post: AppView) -> bool {
    post == AppView {
        raw_entries: Seq::empty(),
        nodes: Seq::empty(),
        total_size: 0,
        selected: Some(0),
        loading: false,
        ..pre
    }
}

/// The highlighted index, 0 when nothing is highlighted.
pub open spec fn selection_index(v: AppView) -> usize {
    match v.selected {
        Some(i) => i,
        None => 0,
    }
}

/// The index of the last line, 0 when there are none.
pub open spec fn last_index(v: AppView) -> usize {
    if v.nodes.len() == 0 {
        0
    } else {
        (v.nodes.len() - 1) as usize
    }
}

/// The entries the filter shows, in display order; their lines are the display
/// lines.
pub open spec fn shown_entries(v: AppView) -> Seq<FileEntry> {
    v.raw_entries.filter(|e: FileEntry| shown(v.filter_query, e))
}

/// The entry at the highlighted place among the shown entries, when there is one.
pub open spec fn selected_entry(v: AppView) -> Option<FileEntry> {
    match v.selected {
        Some(i) => if i < shown_entries(v).len() {
            Some(shown_entries(v)[i as int])
        } else {
            None
        },
        None => None,
    }
}

/// `s` without its last character, if any (`String::pop`).
pub open spec fn without_last(s: Seq<char>) -> Seq<char> {
    if s.len() > 0 {
        s.drop_last()
    } else {
        s
    }
}

/// A key in browse mode.
pub open spec fn browse_step(pre: AppView, key: Key, post: AppView, cmd: Command) -> bool {
    match key {
        Key::Down => post == AppView {
            selected: Some(
                if selection_index(pre) == last_index(pre) {
                    0
                } else {
                    (selection_index(pre) + 1) as usize
                },
            ),
            ..pre
        } && cmd == Command::Nothing,
        Key::Up => post == AppView {
            selected: Some(
                if selection_index(pre) == 0 {
                    last_index(pre)
                } else {
                    (selection_index(pre) - 1) as usize
                },
            ),
            ..pre
        } && cmd == Command::Nothing,
        Key::Enter => post == pre && cmd == match highlighted_name(pre) {
            Some(n) => Command::OpenEntry(n),
            None => Command::Nothing,
        },
        Key::Backspace => post == pre && cmd == Command::OpenParent,
        Key::Char('d') => cmd == Command::Nothing && post == match highlighted_name(pre) {
            Some(n) => AppView {
                delete_target: Some(n),
                mode: AppMode::ConfirmDelete,
                ..pre
            },
            None => pre,
        },
        Key::Char('g') => post == AppView {
            input_buffer: Seq::empty(),
            mode: AppMode::InputPath,
            ..pre
        } && cmd == Command::Nothing,
        Key::Char('/') => post == AppView { mode: AppMode::Filter, ..pre } && cmd == Command::Nothing,
        Key::Char('s') => resorted(AppView { sort_mode: SortMode::Size, ..pre }, post) && cmd
            == Command::Nothing,
        Key::Char('n') => resorted(AppView { sort_mode: SortMode::Name, ..pre }, post) && cmd
            == Command::Nothing,
        Key::Char('r') => post == AppView {
            loading: true,
            scan_id: next_scan_id(pre.scan_id),
            ..pre
        } && cmd == Command::Scan,
        Key::Char('?') => post == AppView { mode: AppMode::Help, ..pre } && cmd == Command::Nothing,
        _ => post == pre && cmd == Command::Nothing,
    }
}

/// A key while a deletion awaits confirmation.
pub open spec fn confirm_step(pre: AppView, key: Key, post: AppView, cmd: Command) -> bool {
    match key {
        Key::Char('y') => post == AppView {
            delete_target: None,
            mode: AppMode::Browse,
            ..pre
        } && cmd == match pre.delete_target {
            Some(n) => Command::Delete(n),
            None => Command::Nothing,
        },
        Key::Char('n') | Key::Esc => post == AppView {
            delete_target: None,
            mode: AppMode::Browse,
            ..pre
        } && cmd == Command::Nothing,
        _ => post == pre && cmd == Command::Nothing,
    }
}

/// A key while a path is typed.
pub open spec fn input_step(pre: AppView, key: Key, post: AppView, cmd: Command) -> bool {
    match key {
        Key::Char(c) => post == AppView { input_buffer: pre.input_buffer.push(c), ..pre } && cmd
            == Command::Nothing,
        Key::Backspace => post == AppView {
            input_buffer: without_last(pre.input_buffer),
            ..pre
        } && cmd == Command::Nothing,
        Key::Enter => post == AppView {
            input_buffer: Seq::empty(),
            mode: AppMode::Browse,
            ..pre
        } && cmd == Command::OpenPath(pre.input_buffer),
        Key::Esc => post == AppView {
            input_buffer: Seq::empty(),
            mode: AppMode::Browse,
            ..pre
        } && cmd == Command::Nothing,
        _ => post == pre && cmd == Command::Nothing,
    }
}

/// A key while the filter is typed; the list follows every change of the filter.
pub open spec fn filter_step(pre: AppView, key: Key, post: AppView, cmd: Command) -> bool {
    match key {
        Key::Char(c) => resorted(AppView { filter_query: pre.filter_query.push(c), ..pre }, post)
            && cmd == Command::Nothing,
        Key::Backspace => resorted(
            AppView { filter_query: without_last(pre.filter_query), ..pre },
            post,
        ) && cmd == Command::Nothing,
        Key::Enter | Key::Esc => post == AppView { mode: AppMode::Browse, ..pre } && cmd
            == Command::Nothing,
        _ => post == pre && cmd == Command::Nothing,
    }
}

/// The Latin shortcut that a character stands for: on the Russian (ЙЦУКЕН) layout,
/// the letter on the same key as a shortcut letter works as that shortcut, so no
/// switch of layout is needed. Other characters stand for themselves.
pub open spec fn shortcut_char(c: char) -> char {
    if c == 'в' {
        'd'
    } else if c == 'п' {
        'g'
    } else if c == '.' {
        '/'
    } else if c == 'ы' {
        's'
    } else if c == 'т' {
        'n'
    } else if c == 'к' {
        'r'
    } else if c == ',' {
        '?'
    } else if c == 'д' {
        'l'
    } else if c == 'н' {
        'y'
    } else {
        c
    }
}

/// A key as a shortcut.
pub open spec fn shortcut(key: Key) -> Key {
    match key {
        Key::Char(c) => Key::Char(shortcut_char(c)),
        _ => key,
    }
}

/// How a key moves the state: in help any key returns to browsing; `l` switches
/// the language except while text is typed; otherwise the mode decides. Outside
/// text entry keys count as the shortcuts they stand for.
pub open spec fn key_step(pre: AppView, key: Key, post: AppView, cmd: Command) -> bool {
    let typing = pre.mode == AppMode::InputPath || pre.mode == AppMode::Filter;
    if !typing && pre.mode != AppMode::Help && shortcut(key) == Key::Char('l') {
        post == AppView { lang: toggled(pre.lang), ..pre } && cmd == Command::Nothing
    } else {
        match pre.mode {
            AppMode::Browse => browse_step(pre, shortcut(key), post, cmd),
            AppMode::ConfirmDelete => confirm_step(pre, shortcut(key), post, cmd),
            AppMode::InputPath => input_step(pre, key, post, cmd),
            AppMode::Filter => filter_step(pre, key, post, cmd),
            AppMode::Help => post == AppView { mode: AppMode::Browse, ..pre } && cmd
                == Command::Nothing,
        }
    }
}

/// The shortcut a key stands for.
pub fn shortcut_key(key: Key) -> (k: Key)
    ensures
        k == shortcut(key),
{
    match key {
        Key::Char(c) => {
            let m = if c == 'в' {
                'd'
            } else if c == 'п' {
                'g'
            } else if c == '.' {
                '/'
            } else if c == 'ы' {
                's'
            } else if c == 'т' {
                'n'
            } else if c == 'к' {
                'r'
            } else if c == ',' {
                '?'
            } else if c == 'д' {
                'l'
            } else if c == 'н' {
                'y'
            } else {
                c
            };
            Key::Char(m)
        },
        _ => key,
    }
}

/// Removes the last character, if there is one.
fn pop_char(s: &mut String)
    ensures
        final(s)@ == without_last(old(s)@),
{
    let v = chars_of(s.as_str());
    if v.len() > 0 {
        *s = string_of(&v, 0, v.len() - 1);
        assert(v@.subrange(0, v.len() - 1) == v@.drop_last());
    }
}

/// The display line of one entry.
pub fn entry_line(e: &FileEntry, total: u64) -> (line: String)
    ensures
        line@ == display_line(*e, total),
{
    let mut line = pad_left_exec(format_size(e.size), 8);
    push_char(&mut line, ' ');
    push_char(&mut line, ' ');
    let pct = percent_text_exec(e.size, total);
    line.append(pct.as_str());
    push_char(&mut line, '%');
    push_char(&mut line, ' ');
    push_char(&mut line, ' ');
    push_char(&mut line, if e.is_dir { '📁' } else { '💾' });
    push_char(&mut line, ' ');
    push_char(&mut line, ' ');
    line.append(e.name.as_str());
    proof {
        let a = pad_left(size_text(e.size), 8);
        let b = percent_text(e.size, total);
        let c = seq!['%', ' ', ' ', icon(e.is_dir), ' ', ' '];
        assert(line@ == a + seq![' ', ' '] + b + c + e.name@);
    }
    line
}

/// Whether the filter shows an entry, given the filter lowercased.
fn entry_shown(e: &FileEntry, filter: &String, query: &Vec<char>) -> (b: bool)
    requires
        query@ == lowercase(filter@),
    ensures
        b == shown(filter@, *e),
{
    if filter.as_str().is_empty() {
        true
    } else {
        let name = chars_of(to_lowercase(e.name.as_str()).as_str());
        chars_contain(&name, query)
    }
}

proof fn lemma_display_step(entries: Seq<FileEntry>, filter: Seq<char>, total: u64, i: int)
    requires
        0 <= i < entries.len(),
    ensures
        display_lines(entries.take(i + 1), filter, total) == (if shown(filter, entries[i]) {
            display_lines(entries.take(i), filter, total).push(display_line(entries[i], total))
        } else {
            display_lines(entries.take(i), filter, total)
        }),
{
    reveal(Seq::filter);
    let p = |e: FileEntry| shown(filter, e);
    let f = |e: FileEntry| display_line(e, total);
    assert(entries.take(i + 1).drop_last() == entries.take(i));
    assert(entries.take(i + 1).last() == entries[i]);
    if p(entries[i]) {
        let s = entries.take(i).filter(p);
        assert(s.push(entries[i]).map_values(f) == s.map_values(f).push(f(entries[i])));
    }
}

/// The name a display line shows.
pub fn name_on_line(line: &String) -> (name: Option<String>)
    ensures
        match name {
            Some(n) => line_name(line@) == Some(n@),
            None => line_name(line@) is None,
        },
{
    let v = chars_of(line.as_str());
    let mut k: usize = 0;
    while k < v.len() && !(v[k] == '📁' || v[k] == '💾')
        invariant
            k <= v.len(),
            v@ == line@,
            first_icon_from(v@, 0) == first_icon_from(v@, k as int),
        decreases v.len() - k,
    {
        k = k + 1;
    }
    if v.len() - k >= 3 {
        let name = string_of(&v, k + 3, v.len());
        assert(v@.skip(k + 3) == v@.subrange(k + 3, v.len() as int));
        Some(name)
    } else {
        None
    }
}

impl App {
    /// A browser in browse mode, sorted by size, in English, with nothing listed,
    /// the first line highlighted and a scan of the starting directory due.
    pub fn new() -> (app: App)
        ensures
            app@ == (AppView {
                nodes: Seq::empty(),
                selected: Some(0),
                mode: AppMode::Browse,
                input_buffer: Seq::empty(),
                filter_query: Seq::empty(),
                loading: true,
                scan_id: 1,
                delete_target: None,
                total_size: 0,
                sort_mode: SortMode::Size,
                raw_entries: Seq::empty(),
                lang: Language::English,
            }),
    {
        let mut app = App {
            nodes: Vec::new(),
            selected: Some(0),
            mode: AppMode::Browse,
            input_buffer: String::new(),
            filter_query: String::new(),
            loading: false,
            scan_id: 0,
            delete_target: None,
            total_size: 0,
            sort_mode: SortMode::Size,
            raw_entries: Vec::new(),
            lang: Language::English,
        };
        app.load_directory();
        assert(app@.nodes == Seq::<Seq<char>>::empty());
        app
    }

    /// Marks a new scan of the current directory as due, under a new number; its
    /// result arrives through `poll_scanner`, tagged with that number. Results of
    /// earlier scans are stale from now on.
    pub fn load_directory(&mut self)
        ensures
            final(self)@ == (AppView {
                loading: true,
                scan_id: next_scan_id(old(self).scan_id),
                ..old(self)@
            }),
            final(self).scan_id != old(self).scan_id,
    {
        self.scan_id = if self.scan_id == u64::MAX { 0 } else { self.scan_id + 1 };
        self.loading = true;
    }

    /// Takes the move to another directory into account: the filter is cleared and
    /// that directory's scan is due.
    pub fn change_directory(&mut self)
        ensures
            final(self)@ == (AppView {
                filter_query: Seq::empty(),
                loading: true,
                scan_id: next_scan_id(old(self).scan_id),
                ..old(self)@
            }),
    {
        self.filter_query = String::new();
        self.load_directory();
    }

    /// Takes in what the pending scan delivered, if anything, tagged with the number
    /// of the scan that produced it: on success its entries and total, sorted and
    /// listed; on failure an empty listing. Either way the first line is
    /// highlighted and nothing is pending. Without a pending scan or a delivery, or
    /// for the result of a scan other than the last one asked for, nothing changes.
    pub fn poll_scanner(&mut self, received: Option<(u64, Result<(Vec<FileEntry>, u64), anyhow::Error>)>)
        ensures
            match received {
                Some((id, Ok((entries, total)))) if old(self).loading && id == old(self).scan_id =>
                    scan_taken(old(self)@, entries@, total, final(self)@),
                Some((id, Err(_))) if old(self).loading && id == old(self).scan_id => scan_failed(
                    old(self)@,
                    final(self)@,
                ),
                _ => final(self)@ == old(self)@,
            },
    {
        if !self.loading {
            return;
        }
        let result = match received {
            Some((id, result)) => {
                if id != self.scan_id {
                    return;
                }
                result
            },
            None => {
                return;
            },
        };
        match result {
            Ok((entries, total)) => {
                self.raw_entries = entries;
                self.total_size = total;
                self.apply_sort();
                self.selected = Some(0);
                self.loading = false;
            },
            Err(_) => {
                self.raw_entries = Vec::new();
                self.total_size = 0;
                self.nodes = Vec::new();
                self.selected = Some(0);
                self.loading = false;
                assert(final(self)@.nodes == Seq::<Seq<char>>::empty());
            },
        }
    }

    /// Sorts the entries by the current sort mode and rebuilds the display lines.
    pub fn apply_sort(&mut self)
        ensures
            resorted(old(self)@, final(self)@),
    {
        sort_entries(&mut self.raw_entries, self.sort_mode);
        self.build_display_strings();
    }

    /// Rebuilds the display lines: one per entry whose name matches the filter.
    pub fn build_display_strings(&mut self)
        ensures
            final(self)@ == (AppView {
                nodes: display_lines(old(self)@.raw_entries, old(self)@.filter_query, old(self).total_size),
                ..old(self)@
            }),
    {
        let query = chars_of(to_lowercase(self.filter_query.as_str()).as_str());
        let mut display: Vec<String> = Vec::new();
        let mut i: usize = 0;
        let ghost entries = self.raw_entries@;
        let ghost filter = self.filter_query@;
        assert(entries.take(0).filter(|e: FileEntry| shown(filter, e)) == Seq::<FileEntry>::empty())
            by {
            reveal(Seq::filter);
        }
        while i < self.raw_entries.len()
            invariant
                i <= self.raw_entries.len(),
                entries == self.raw_entries@,
                filter == self.filter_query@,
                query@ == lowercase(filter),
                lines_view(display@) == display_lines(entries.take(i as int), filter, self.total_size),
            decreases self.raw_entries.len() - i,
        {
            let e = &self.raw_entries[i];
            let keep = entry_shown(e, &self.filter_query, &query);
            proof {
                lemma_display_step(entries, filter, self.total_size, i as int);
            }
            if keep {
                let line = entry_line(e, self.total_size);
                display.push(line);
                assert(lines_view(display@) == display_lines(entries.take(i as int), filter, self.total_size).push(display_line(entries[i as int], self.total_size)));
            }
            i = i + 1;
        }
        assert(entries.take(i as int) == entries);
        self.nodes = display;
    }

    /// The name shown on the highlighted line, if a line is highlighted and shows
    /// one.
    pub fn selected_name(&self) -> (name: Option<String>)
        ensures
            match name {
                Some(n) => highlighted_name(self@) == Some(n@),
                None => highlighted_name(self@) is None,
            },
    {
        match self.selected {
            Some(i) => if i < self.nodes.len() {
                name_on_line(&self.nodes[i])
            } else {
                None
            },
            None => None,
        }
    }

    /// A key in browse mode, taken as the shortcut it stands for.
    pub fn handle_browse(&mut self, key: Key) -> (action: Action)
        requires
            old(self).mode == AppMode::Browse,
            key == Key::Down ==> selection_index(old(self)@) < usize::MAX,
        ensures
            browse_step(old(self)@, shortcut(key), final(self)@, action@),
    {
        match shortcut_key(key) {
            Key::Down => {
                let i = match self.selected { Some(i) => i, None => 0 };
                let max = if self.nodes.len() == 0 { 0 } else { self.nodes.len() - 1 };
                self.selected = Some(if i == max { 0 } else { i + 1 });
                Action::Nothing
            },
            Key::Up => {
                let i = match self.selected { Some(i) => i, None => 0 };
                let max = if self.nodes.len() == 0 { 0 } else { self.nodes.len() - 1 };
                self.selected = Some(if i == 0 { max } else { i - 1 });
                Action::Nothing
            },
            Key::Enter => match self.selected_name() {
                Some(name) => Action::OpenEntry(name),
                None => Action::Nothing,
            },
            Key::Backspace => Action::OpenParent,
            Key::Char('d') => {
                if let Some(name) = self.selected_name() {
                    self.delete_target = Some(name);
                    self.mode = AppMode::ConfirmDelete;
                }
                Action::Nothing
            },
            Key::Char('g') => {
                self.input_buffer = String::new();
                self.mode = AppMode::InputPath;
                Action::Nothing
            },
            Key::Char('/') => {
                self.mode = AppMode::Filter;
                Action::Nothing
            },
            Key::Char('s') => {
                self.sort_mode = SortMode::Size;
                self.apply_sort();
                Action::Nothing
            },
            Key::Char('n') => {
                self.sort_mode = SortMode::Name;
                self.apply_sort();
                Action::Nothing
            },
            Key::Char('r') => {
                self.load_directory();
                Action::Scan
            },
            Key::Char('?') => {
                self.mode = AppMode::Help;
                Action::Nothing
            },
            _ => Action::Nothing,
        }
    }

    /// A key while a deletion awaits confirmation, taken as the shortcut it stands
    /// for.
    pub fn handle_confirm_delete(&mut self, key: Key) -> (action: Action)
        requires
            old(self).mode == AppMode::ConfirmDelete,
        ensures
            confirm_step(old(self)@, shortcut(key), final(self)@, action@),
    {
        match shortcut_key(key) {
            Key::Char('y') => {
                let target = self.delete_target.take();
                self.mode = AppMode::Browse;
                match target {
                    Some(name) => Action::Delete(name),
                    None => Action::Nothing,
                }
            },
            Key::Char('n') | Key::Esc => {
                self.delete_target = None;
                self.mode = AppMode::Browse;
                Action::Nothing
            },
            _ => Action::Nothing,
        }
    }

    /// A key while a path is typed.
    pub fn handle_input_path(&mut self, key: Key) -> (action: Action)
        requires
            old(self).mode == AppMode::InputPath,
        ensures
            input_step(old(self)@, key, final(self)@, action@),
    {
        match key {
            Key::Char(c) => {
                push_char(&mut self.input_buffer, c);
                Action::Nothing
            },
            Key::Backspace => {
                pop_char(&mut self.input_buffer);
                Action::Nothing
            },
            Key::Enter => {
                let path = self.input_buffer.clone();
                self.mode = AppMode::Browse;
                self.input_buffer = String::new();
                Action::OpenPath(path)
            },
            Key::Esc => {
                self.mode = AppMode::Browse;
                self.input_buffer = String::new();
                Action::Nothing
            },
            _ => Action::Nothing,
        }
    }

    /// A key while the filter is typed.
    pub fn handle_filter(&mut self, key: Key) -> (action: Action)
        requires
            old(self).mode == AppMode::Filter,
        ensures
            filter_step(old(self)@, key, final(self)@, action@),
    {
        match key {
            Key::Char(c) => {
                push_char(&mut self.filter_query, c);
                self.apply_sort();
                Action::Nothing
            },
            Key::Backspace => {
                pop_char(&mut self.filter_query);
                self.apply_sort();
                Action::Nothing
            },
            Key::Enter | Key::Esc => {
                self.mode = AppMode::Browse;
                Action::Nothing
            },
            _ => Action::Nothing,
        }
    }

    /// Moves the state by one key and says what is left to do outside.
    pub fn handle_key(&mut self, key: Key) -> (action: Action)
        requires
            old(self).mode == AppMode::Browse && key == Key::Down ==> selection_index(old(self)@)
                < usize::MAX,
        ensures
            key_step(old(self)@, key, final(self)@, action@),
    {
        let typing = self.mode == AppMode::InputPath || self.mode == AppMode::Filter;
        let short = shortcut_key(key);
        if !typing && self.mode != AppMode::Help && short == Key::Char('l') {
            self.lang = match self.lang {
                Language::English => Language::Russian,
                Language::Russian => Language::English,
            };
            return Action::Nothing;
        }
        match self.mode {
            AppMode::Browse => self.handle_browse(key),
            AppMode::ConfirmDelete => self.handle_confirm_delete(key),
            AppMode::InputPath => self.handle_input_path(key),
            AppMode::Filter => self.handle_filter(key),
            AppMode::Help => {
                self.mode = AppMode::Browse;
                Action::Nothing
            },
        }
    }
}

}
