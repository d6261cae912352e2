//! Properties that hold across calls of the library.
use vstd::prelude::*;
use vstd::arithmetic::power2::{pow2, lemma2_to64, lemma_pow2_adds};
use crate::app::{SortMode, Language, AppView, line_name, first_icon_from, is_icon, icon, highlighted_name, scan_taken, scan_failed, AppMode, Command, Key, key_step, browse_step, input_step, filter_step, selected_entry, shortcut, last_index, display_line, display_lines, shown};
use crate::format::{digit_char, one_decimal, f64_spacing, u64_as_f64, round_half_even, decimal, size_text, tenths_of, pad_left, F64_EXACT_LIMIT, KIB, MIB, GIB};
use crate::percent::{percent_text, percent_tenths, in_binade, floor_log2_ratio, ratio_significand};
use crate::scanner::{FileEntry, lookup};
use crate::sort::{stably_sorted, sorted_by, key_class, same_key, goes_before};
use crate::text::{seq_lt, occurs_in, lowercase, is_white_space, first_word, trim_white_start, leading_word};
use crate::ui::{SizeColor, size_color, status};

verus! {

broadcast use vstd::seq_lib::group_to_multiset_ensures;

proof fn lemma_count_in_class(mode: crate::app::SortMode, s: Seq<FileEntry>, e: FileEntry)
    ensures
        s.to_multiset().count(e) == key_class(mode, s, e).to_multiset().count(e),
    decreases s.len(),
{
    reveal(Seq::filter);
    if s.len() > 0 {
        let t = s.drop_last();
        let x = s.last();
        assert(s == t.push(x));
        lemma_count_in_class(mode, t, e);
        assert(same_key(mode, e, e));
    }
}

/// Sorting keeps exactly the entries it was given, each as often as before.
pub proof fn law_sort_keeps_entries(mode: crate::app::SortMode, input: Seq<FileEntry>, output: Seq<FileEntry>)
    requires
        stably_sorted(mode, input, output),
    ensures
        output.to_multiset() == input.to_multiset(),
{
    assert forall|e: FileEntry| output.to_multiset().count(e) == input.to_multiset().count(e) by {
        lemma_count_in_class(mode, input, e);
        lemma_count_in_class(mode, output, e);
        assert(key_class(mode, input, e) == key_class(mode, output, e));
    }
    assert(output.to_multiset() =~= input.to_multiset());
}

/// A recorded size is what the cache then answers for that path.
pub proof fn law_cache_answers_recorded(sizes: Map<Seq<char>, u64>, path: Seq<char>, size: u64)
    ensures
        lookup(sizes.insert(path, size), path) == Some(size),
{
}

/// Recording or forgetting one path leaves the answer for any other path alone.
pub proof fn law_cache_other_paths_kept(sizes: Map<Seq<char>, u64>, path: Seq<char>, other: Seq<char>, size: u64)
    requires
        path != other,
    ensures
        lookup(sizes.insert(path, size), other) == lookup(sizes, other),
        lookup(sizes.remove(path), other) == lookup(sizes, other),
{
}

/// After a path is invalidated, or the cache cleared, nothing is recorded for it.
pub proof fn law_cache_forgets(sizes: Map<Seq<char>, u64>, path: Seq<char>)
    ensures
        lookup(sizes.remove(path), path) == None::<u64>,
        lookup(Map::<Seq<char>, u64>::empty(), path) == None::<u64>,
{
}

/// The place of a colour on the scale from small to huge.
pub open spec fn color_rank(c: SizeColor) -> int {
    match c {
        SizeColor::Gray => 0,
        SizeColor::Green => 1,
        SizeColor::LightBlue => 2,
        SizeColor::Yellow => 3,
        SizeColor::Red => 4,
    }
}

/// A larger size never gets a colour lower on the scale.
pub proof fn law_color_grows_with_size(a: u64, b: u64)
    requires
        a <= b,
    ensures
        color_rank(size_color(a)) <= color_rank(size_color(b)),
{
}

/// With an empty filter every entry has its line, in order.
pub proof fn law_empty_filter_shows_all(entries: Seq<FileEntry>, total: u64)
    ensures
        display_lines(entries, Seq::empty(), total) == entries.map_values(
            |e: FileEntry| display_line(e, total),
        ),
    decreases entries.len(),
{
    reveal(Seq::filter);
    let p = |e: FileEntry| shown(Seq::<char>::empty(), e);
    assert(entries.filter(p) == entries) by {
        lemma_filter_all(entries, p);
    }
}

proof fn lemma_filter_all(s: Seq<FileEntry>, p: spec_fn(FileEntry) -> bool)
    requires
        forall|i: int| 0 <= i < s.len() ==> p(#[trigger] s[i]),
    ensures
        s.filter(p) == s,
    decreases s.len(),
{
    reveal(Seq::filter);
    if s.len() > 0 {
        lemma_filter_all(s.drop_last(), p);
        assert(s.drop_last().push(s.last()) == s);
    }
}

/// The filter only ever hides lines: there are never more lines than entries.
pub proof fn law_filter_never_adds(entries: Seq<FileEntry>, filter: Seq<char>, total: u64)
    ensures
        display_lines(entries, filter, total).len() <= entries.len(),
{
    entries.lemma_filter_len(|e: FileEntry| shown(filter, e));
}

/// Pressing `l` twice, outside text entry and help, gives back the same state.
pub proof fn law_language_switch_twice(pre: AppView, mid: AppView, post: AppView, c1: Command, c2: Command)
    requires
        pre.mode != AppMode::InputPath,
        pre.mode != AppMode::Filter,
        pre.mode != AppMode::Help,
        key_step(pre, Key::Char('l'), mid, c1),
        key_step(mid, Key::Char('l'), post, c2),
    ensures
        post == pre,
        c1 == Command::Nothing,
        c2 == Command::Nothing,
{
}

/// In browse mode, down then up comes back to the highlighted line.
pub proof fn law_down_then_up(pre: AppView, mid: AppView, post: AppView, c1: Command, c2: Command, i: usize)
    requires
        pre.mode == AppMode::Browse,
        pre.selected == Some(i),
        i < usize::MAX,
        key_step(pre, Key::Down, mid, c1),
        key_step(mid, Key::Up, post, c2),
    ensures
        post == pre,
{
}

/// In browse mode, up then down comes back to the highlighted line, unless that is
/// the one just past the last line (up lands on the last line, and down wraps).
pub proof fn law_up_then_down(pre: AppView, mid: AppView, post: AppView, c1: Command, c2: Command, i: usize)
    requires
        pre.mode == AppMode::Browse,
        pre.selected == Some(i),
        i != last_index(pre) + 1,
        key_step(pre, Key::Up, mid, c1),
        key_step(mid, Key::Down, post, c2),
    ensures
        post == pre,
{
}

/// Nothing is deleted unconfirmed: a deletion is asked for only by `y` (or the key
/// it is on) while a deletion awaits confirmation, and only of the name chosen
/// with `d`.
pub proof fn law_delete_needs_confirmation(pre: AppView, key: Key, post: AppView, name: Seq<char>)
    requires
        key_step(pre, key, post, Command::Delete(name)),
    ensures
        pre.mode == AppMode::ConfirmDelete,
        shortcut(key) == Key::Char('y'),
        pre.delete_target == Some(name),
{
}

/// In help every key, `l` included, returns to browsing and changes nothing else.
pub proof fn law_help_any_key_closes(pre: AppView, key: Key, post: AppView, cmd: Command)
    requires
        pre.mode == AppMode::Help,
        key_step(pre, key, post, cmd),
    ensures
        post == (AppView { mode: AppMode::Browse, ..pre }),
        cmd == Command::Nothing,
{
}

/// Escape leaves every other mode for browsing and asks for nothing.
pub proof fn law_escape_returns_to_browse(pre: AppView, post: AppView, cmd: Command)
    requires
        pre.mode != AppMode::Browse,
        key_step(pre, Key::Esc, post, cmd),
    ensures
        post.mode == AppMode::Browse,
        cmd == Command::Nothing,
{
}

/// In browse mode the highlight moves round the listing: down goes to the next
/// line and from the last to the first, up to the previous line and from the first
/// to the last; nothing else changes.
pub proof fn law_browse_navigation_wraps(
    pre: AppView,
    down: AppView,
    c1: Command,
    up: AppView,
    c2: Command,
    i: usize,
)
    requires
        1 <= pre.nodes.len() <= usize::MAX,
        pre.selected == Some(i),
        i < pre.nodes.len(),
        browse_step(pre, Key::Down, down, c1),
        browse_step(pre, Key::Up, up, c2),
    ensures
        down == (AppView { selected: Some(((i + 1) % (pre.nodes.len() as int)) as usize), ..pre }),
        up == (AppView {
            selected: Some(((i + pre.nodes.len() - 1) % (pre.nodes.len() as int)) as usize),
            ..pre
        }),
        c1 == Command::Nothing,
        c2 == Command::Nothing,
{
    let n = pre.nodes.len() as int;
    if i + 1 == n {
        vstd::arithmetic::div_mod::lemma_mod_self_0(n);
    } else {
        vstd::arithmetic::div_mod::lemma_small_mod((i + 1) as nat, n as nat);
    }
    if i == 0 {
        vstd::arithmetic::div_mod::lemma_small_mod((n - 1) as nat, n as nat);
    } else {
        vstd::arithmetic::div_mod::lemma_mod_add_multiples_vanish(i - 1, n);
        vstd::arithmetic::div_mod::lemma_small_mod((i - 1) as nat, n as nat);
    }
}

/// Every display line shows the name of its entry, whatever characters the name
/// holds: the size and share before the icon never hold an icon.
pub proof fn law_line_names_its_entry(e: FileEntry, total: u64)
    ensures
        line_name(display_line(e, total)) == Some(e.name@),
{
    let line = display_line(e, total);
    let a = pad_left(size_text(e.size), 8);
    let b = percent_text(e.size, total);
    let p = a + seq![' ', ' '] + b + seq!['%', ' ', ' '];
    let ic = icon(e.is_dir);
    assert(line == p + seq![ic, ' ', ' '] + e.name@);
    lemma_size_text_narrow(e.size);
    lemma_pad_narrow(size_text(e.size), 8);
    lemma_one_decimal_narrow(percent_tenths(e.size, total));
    lemma_pad_narrow(one_decimal(percent_tenths(e.size, total)), 5);
    assert forall|j: int| 0 <= j < p.len() implies narrow(#[trigger] line[j]) by {
        assert(line[j] == p[j]);
        if j < a.len() {
            assert(p[j] == a[j]);
        } else if j < a.len() + 2 {
        } else if j < a.len() + 2 + b.len() {
            assert(p[j] == b[j - a.len() - 2]);
        }
    }
    assert(is_icon(line[p.len() as int]));
    lemma_first_icon(line, 0, p.len() as int);
    assert(line.skip(p.len() as int + 3) == e.name@);
}

/// A character below 128.
spec fn narrow(c: char) -> bool {
    (c as u32) < 128
}

proof fn lemma_first_icon(line: Seq<char>, k: int, a: int)
    requires
        0 <= k <= a < line.len(),
        forall|j: int| k <= j < a ==> narrow(#[trigger] line[j]),
        is_icon(line[a]),
    ensures
        first_icon_from(line, k) == a,
    decreases a - k,
{
    if k < a {
        assert(narrow(line[k]));
        lemma_first_icon(line, k + 1, a);
    }
}

proof fn lemma_decimal_narrow(n: nat)
    ensures
        forall|i: int| 0 <= i < decimal(n).len() ==> narrow(#[trigger] decimal(n)[i]),
    decreases n,
{
    assert(narrow(digit_char(n % 10)));
    if n >= 10 {
        lemma_decimal_narrow(n / 10);
        let s = decimal(n / 10);
        assert forall|i: int| 0 <= i < decimal(n).len() implies narrow(#[trigger] decimal(n)[i]) by {
            if i < s.len() {
                assert(decimal(n)[i] == s[i]);
            }
        }
    }
}

proof fn lemma_one_decimal_narrow(t: nat)
    ensures
        forall|i: int| 0 <= i < one_decimal(t).len() ==> narrow(#[trigger] one_decimal(t)[i]),
{
    lemma_decimal_narrow(t / 10);
    let d = decimal(t / 10);
    assert forall|i: int| 0 <= i < one_decimal(t).len() implies narrow(#[trigger] one_decimal(t)[i]) by {
        if i < d.len() {
            assert(one_decimal(t)[i] == d[i]);
        }
    }
}

proof fn lemma_size_text_narrow(size: u64)
    ensures
        forall|i: int| 0 <= i < size_text(size).len() ==> narrow(#[trigger] size_text(size)[i]),
{
    if size >= GIB {
        lemma_one_decimal_narrow(tenths_of(size as nat, GIB as nat));
    } else if size >= MIB {
        lemma_one_decimal_narrow(tenths_of(size as nat, MIB as nat));
    } else if size >= KIB {
        lemma_one_decimal_narrow(tenths_of(size as nat, KIB as nat));
    } else {
        lemma_decimal_narrow(size as nat);
    }
    let t = size_text(size);
    assert forall|i: int| 0 <= i < t.len() implies narrow(#[trigger] t[i]) by {
        if i < t.len() - 1 {
            assert(t[i] == t.drop_last()[i]);
        }
    }
}

proof fn lemma_pad_narrow(s: Seq<char>, width: nat)
    requires
        forall|i: int| 0 <= i < s.len() ==> narrow(#[trigger] s[i]),
    ensures
        forall|i: int| 0 <= i < pad_left(s, width).len() ==> narrow(#[trigger] pad_left(s, width)[i]),
{
    if s.len() < width {
        let sp = Seq::new((width - s.len()) as nat, |i: int| ' ');
        assert forall|i: int| 0 <= i < pad_left(s, width).len() implies narrow(#[trigger] pad_left(s, width)[i]) by {
            if i >= sp.len() {
                assert(pad_left(s, width)[i] == s[i - sp.len()]);
            }
        }
    }
}

/// With the listing in agreement with the entries, the highlighted line is the
/// display line of the entry that Enter opens: Enter asks to open that entry by its
/// own name, whatever characters the name holds.
pub proof fn law_enter_opens_highlighted_entry(pre: AppView, post: AppView, cmd: Command, i: usize)
    requires
        pre.mode == AppMode::Browse,
        listing_consistent(pre),
        pre.selected == Some(i),
        i < pre.nodes.len(),
        key_step(pre, Key::Enter, post, cmd),
    ensures
        selected_entry(pre) is Some,
        pre.nodes[i as int] == display_line(selected_entry(pre)->0, pre.total_size),
        cmd == Command::OpenEntry(selected_entry(pre)->0.name@),
        post == pre,
{
    law_line_names_its_entry(selected_entry(pre)->0, pre.total_size);
}

/// With the listing in agreement with the entries, `d` marks for deletion the entry
/// whose line is highlighted, by its own name, and asks for confirmation.
pub proof fn law_delete_marks_highlighted_entry(pre: AppView, post: AppView, cmd: Command, i: usize)
    requires
        pre.mode == AppMode::Browse,
        listing_consistent(pre),
        pre.selected == Some(i),
        i < pre.nodes.len(),
        key_step(pre, Key::Char('d'), post, cmd),
    ensures
        selected_entry(pre) is Some,
        pre.nodes[i as int] == display_line(selected_entry(pre)->0, pre.total_size),
        post == (AppView {
            delete_target: Some(selected_entry(pre)->0.name@),
            mode: AppMode::ConfirmDelete,
            ..pre
        }),
        cmd == Command::Nothing,
{
    law_line_names_its_entry(selected_entry(pre)->0, pre.total_size);
}

/// While a path is typed, typing a character and erasing it gives back the same
/// state.
pub proof fn law_path_type_then_erase(
    pre: AppView,
    mid: AppView,
    post: AppView,
    c: char,
    c1: Command,
    c2: Command,
)
    requires
        pre.mode == AppMode::InputPath,
        input_step(pre, Key::Char(c), mid, c1),
        input_step(mid, Key::Backspace, post, c2),
    ensures
        post == pre,
        c1 == Command::Nothing,
        c2 == Command::Nothing,
{
    assert(pre.input_buffer.push(c).drop_last() == pre.input_buffer);
}

/// Erasing an empty path leaves it empty and changes nothing.
pub proof fn law_path_erase_empty(pre: AppView, post: AppView, cmd: Command)
    requires
        pre.mode == AppMode::InputPath,
        pre.input_buffer.len() == 0,
        input_step(pre, Key::Backspace, post, cmd),
    ensures
        post == pre,
        cmd == Command::Nothing,
{
}

/// A deletion target is held exactly while a deletion awaits confirmation.
pub open spec fn target_iff_confirming(v: AppView) -> bool {
    (v.delete_target is Some) == (v.mode == AppMode::ConfirmDelete)
}

/// Every key keeps a deletion target held exactly while a deletion awaits
/// confirmation; a new browser starts with neither.
pub proof fn law_keys_keep_target_iff_confirming(pre: AppView, key: Key, post: AppView, cmd: Command)
    requires
        target_iff_confirming(pre),
        key_step(pre, key, post, cmd),
    ensures
        target_iff_confirming(post),
{
}

/// Taking in a scan result, or its failure, keeps a deletion target held exactly
/// while a deletion awaits confirmation.
pub proof fn law_scan_keeps_target_iff_confirming(
    pre: AppView,
    entries: Seq<FileEntry>,
    total: u64,
    post: AppView,
)
    requires
        target_iff_confirming(pre),
    ensures
        scan_taken(pre, entries, total, post) ==> target_iff_confirming(post),
        scan_failed(pre, post) ==> target_iff_confirming(post),
{
}

proof fn lemma_rhe_at_most(n: nat, d: nat, c: nat)
    requires
        d > 0,
        n <= c * d,
    ensures
        round_half_even(n, d) <= c,
{
    let q = n / d;
    let r = n % d;
    vstd::arithmetic::div_mod::lemma_fundamental_div_mod(n as int, d as int);
    assert(q <= c) by (nonlinear_arith)
        requires
            d * q + r == n,
            0 <= r,
            n <= c * d,
            d > 0,
    ;
    if q == c {
        assert(r == 0) by (nonlinear_arith)
            requires
                d * q + r == n,
                n <= c * d,
                q == c,
                0 <= r,
        ;
    }
}

proof fn lemma_rhe_at_least(n: nat, d: nat, c: nat)
    requires
        d > 0,
        c * d <= n,
    ensures
        c <= round_half_even(n, d),
{
    vstd::arithmetic::div_mod::lemma_fundamental_div_mod(n as int, d as int);
    let q = n / d;
    let r = n % d;
    assert(c <= q) by (nonlinear_arith)
        requires
            d * q + r == n,
            r < d,
            c * d <= n,
            d > 0,
    ;
}

proof fn lemma_rhe_monotone(x: nat, y: nat, d: nat)
    requires
        d > 0,
        x <= y,
    ensures
        round_half_even(x, d) <= round_half_even(y, d),
{
    vstd::arithmetic::div_mod::lemma_fundamental_div_mod(x as int, d as int);
    vstd::arithmetic::div_mod::lemma_fundamental_div_mod(y as int, d as int);
    let qx = x / d;
    let qy = y / d;
    vstd::arithmetic::div_mod::lemma_div_is_ordered(x as int, y as int, d as int);
    if qx == qy {
        assert(x % d <= y % d);
    }
}

proof fn lemma_spacing_facts(n: nat)
    ensures
        f64_spacing(n) >= 1,
        n < F64_EXACT_LIMIT * f64_spacing(n),
        f64_spacing(n) >= 2 ==> F64_EXACT_LIMIT * f64_spacing(n) <= 2 * n,
    decreases n,
{
    if n >= F64_EXACT_LIMIT {
        lemma_spacing_facts(n / 2);
    }
}

proof fn lemma_spacing_monotone(x: nat, y: nat)
    requires
        x <= y,
    ensures
        f64_spacing(x) <= f64_spacing(y),
        f64_spacing(x) < f64_spacing(y) ==> 2 * f64_spacing(x) <= f64_spacing(y),
    decreases y,
{
    if y >= F64_EXACT_LIMIT {
        lemma_spacing_facts(y / 2);
        if x >= F64_EXACT_LIMIT {
            lemma_spacing_monotone(x / 2, y / 2);
        }
    }
}

/// Converting to a double keeps the order of integers.
proof fn lemma_f64_monotone(x: nat, y: nat)
    requires
        x <= y,
    ensures
        u64_as_f64(x) <= u64_as_f64(y),
{
    lemma_spacing_monotone(x, y);
    lemma_spacing_facts(x);
    lemma_spacing_facts(y);
    let sx = f64_spacing(x);
    let sy = f64_spacing(y);
    if sx == sy {
        lemma_rhe_monotone(x, y, sx);
        let rx = round_half_even(x, sx);
        let ry = round_half_even(y, sx);
        assert(rx * sx <= ry * sx) by (nonlinear_arith)
            requires
                rx <= ry,
        ;
    } else {
        lemma_rhe_at_most(x, sx, F64_EXACT_LIMIT as nat);
        let rx = round_half_even(x, sx);
        assert(rx * sx <= F64_EXACT_LIMIT * sx) by (nonlinear_arith)
            requires
                rx <= F64_EXACT_LIMIT,
        ;
        assert(F64_EXACT_LIMIT * sy <= 2 * y);
        let c: nat = (F64_EXACT_LIMIT / 2) as nat;
        assert(c * sy <= y) by (nonlinear_arith)
            requires
                F64_EXACT_LIMIT * sy <= 2 * y,
                c * 2 == F64_EXACT_LIMIT,
        ;
        lemma_rhe_at_least(y, sy, c);
        let ry = round_half_even(y, sy);
        assert(c * sy <= ry * sy) by (nonlinear_arith)
            requires
                c <= ry,
        ;
        assert(F64_EXACT_LIMIT * sx <= c * sy) by (nonlinear_arith)
            requires
                2 * sx <= sy,
                c * 2 == F64_EXACT_LIMIT,
        ;
    }
}

proof fn lemma_f64_of_positive(n: nat)
    requires
        n > 0,
    ensures
        u64_as_f64(n) > 0,
{
    lemma_spacing_facts(n);
    let s = f64_spacing(n);
    if s >= 2 {
        assert(s <= n);
        lemma_rhe_at_least(n, s, 1);
    } else {
        lemma_rhe_at_least(n, s, 1);
    }
    let r = round_half_even(n, s);
    assert(r * s > 0) by (nonlinear_arith)
        requires
            r >= 1,
            s >= 1,
    ;
}

/// `100 * 2^52` and `100 * 2^53` are doubles.
proof fn lemma_hundreds_are_exact()
    ensures
        u64_as_f64(450359962737049600) == 450359962737049600,
        u64_as_f64(900719925474099200) == 900719925474099200,
{
    reveal_with_fuel(f64_spacing, 9);
    assert(f64_spacing(450359962737049600) == 64);
    assert(f64_spacing(900719925474099200) == 128);
}

proof fn lemma_binade_exists(a: nat, b: nat)
    requires
        a > 0,
        b > 0,
    ensures
        exists|e: int| in_binade(a, b, e),
    decreases (if a >= b { 0int } else { 1int }), (if a >= b { a - b } else { b - a }),
{
    lemma2_to64();
    if a >= 2 * b {
        let b2: nat = 2 * b;
        lemma_binade_exists(a, b2);
        let e = choose|e: int| in_binade(a, b2, e);
        if e < 0 {
            let k = (-e) as nat;
            crate::percent::lemma_pow2_le(1, k);
            let pk = pow2(k);
            assert(a * pk >= a * 2) by (nonlinear_arith)
                requires
                    pk >= 2,
            ;
        } else {
            lemma_pow2_adds(1, e as nat);
            lemma_pow2_adds(1, (e + 1) as nat);
            assert((1 + e) as nat == (e + 1) as nat);
            let p1 = pow2(e as nat);
            let p2 = pow2((e + 1) as nat);
            assert(2 * b * p1 == b * (2 * p1) && 2 * b * p2 == b * (2 * p2)) by (nonlinear_arith);
            assert(in_binade(a, b, e + 1));
        }
    } else if a >= b {
        assert(in_binade(a, b, 0)) by {
            assert(b * pow2(0) == b && b * pow2(1) == 2 * b) by (nonlinear_arith)
                requires
                    pow2(0) == 1,
                    pow2(1) == 2,
            ;
        }
    } else {
        let a2: nat = 2 * a;
        lemma_binade_exists(a2, b);
        let e = choose|e: int| in_binade(a2, b, e);
        if e >= 0 {
            if e >= 1 {
                crate::percent::lemma_pow2_le(1, e as nat);
                let pe = pow2(e as nat);
                assert(b * pe >= b * 2) by (nonlinear_arith)
                    requires
                        pe >= 2,
                ;
            }
            assert(e == 0);
            assert(b * pow2(0) == b) by (nonlinear_arith)
                requires
                    pow2(0) == 1,
            ;
            assert(in_binade(a, b, -1)) by {
                assert(a * pow2(1) == 2 * a) by (nonlinear_arith)
                    requires
                        pow2(1) == 2,
                ;
            }
        } else {
            let k = (-e) as nat;
            lemma_pow2_adds(1, k);
            assert((1 + k) as nat == (-(e - 1)) as nat);
            let pk = pow2(k);
            assert(a * (2 * pk) == 2 * a * pk) by (nonlinear_arith);
            assert(in_binade(a, b, e - 1));
        }
    }
}

/// The binade and significand of a ratio of two equal positive numbers.
proof fn lemma_equal_ratio(a: nat)
    requires
        a > 0,
    ensures
        floor_log2_ratio(a, a) == 0,
        ratio_significand(a, a) == 4503599627370496,
{
    lemma2_to64();
    lemma_pow2_adds(32, 20);
    assert(in_binade(a, a, 0)) by {
        assert(a * pow2(0) == a && a * pow2(1) == 2 * a) by (nonlinear_arith)
            requires
                pow2(0) == 1,
                pow2(1) == 2,
        ;
    }
    let c = choose|e: int| in_binade(a, a, e);
    crate::percent::lemma_binade_unique(a, a, c, 0);
    let k: nat = 4503599627370496;
    assert(pow2(52) == k);
    vstd::arithmetic::div_mod::lemma_div_by_multiple(k as int, a as int);
    vstd::arithmetic::div_mod::lemma_mod_multiples_basic(k as int, a as int);
    assert(a * k == k * a) by (nonlinear_arith);
}

/// An entry that is the whole total shows as 100.0%.
pub proof fn law_whole_total_is_hundred_percent(size: u64)
    requires
        size > 0,
    ensures
        percent_tenths(size, size) == 1000,
{
    let a = u64_as_f64(size as nat);
    lemma_f64_of_positive(size as nat);
    lemma_equal_ratio(a);
    lemma_hundreds_are_exact();
    lemma2_to64();
    lemma_pow2_adds(32, 20);
    assert(100 * 4503599627370496nat == 450359962737049600nat);
}

/// No entry shows more than 100.0% of a total at least its size.
pub proof fn law_share_at_most_hundred_percent(size: u64, total: u64)
    requires
        size <= total,
    ensures
        percent_tenths(size, total) <= 1000,
{
    if size == 0 || total == 0 {
        return;
    }
    let a = u64_as_f64(size as nat);
    let b = u64_as_f64(total as nat);
    lemma_f64_of_positive(size as nat);
    lemma_f64_of_positive(total as nat);
    lemma_f64_monotone(size as nat, total as nat);
    lemma_binade_exists(a, b);
    let e = floor_log2_ratio(a, b);
    assert(in_binade(a, b, e));
    lemma2_to64();
    lemma_pow2_adds(32, 20);
    lemma_pow2_adds(32, 21);
    lemma_hundreds_are_exact();
    if e >= 1 {
        crate::percent::lemma_pow2_le(1, e as nat);
        let pe = pow2(e as nat);
        assert(b * pe >= b * 2) by (nonlinear_arith)
            requires
                pe >= 2,
        ;
    }
    if e == 0 {
        assert(b * pow2(0) == b) by (nonlinear_arith)
            requires
                pow2(0) == 1,
        ;
        assert(a == b);
        lemma_equal_ratio(a);
        assert(100 * 4503599627370496nat == 450359962737049600nat);
    } else {
        assert(e < 0);
        crate::percent::lemma_significand_bound(a, b, e);
        let m = ratio_significand(a, b);
        let big: nat = 9007199254740992;
        assert(pow2(53) == big);
        lemma_rhe_at_most(a * pow2((52 - e) as nat), b, big);
        assert(m <= big);
        lemma_f64_monotone(100 * m, 100 * big);
        let p = u64_as_f64(100 * m);
        assert(p <= 900719925474099200);
        let d = pow2((52 - e) as nat);
        crate::percent::lemma_pow2_le(53, (52 - e) as nat);
        assert(10 * p <= 1000 * d) by (nonlinear_arith)
            requires
                p <= 900719925474099200,
                d >= 9007199254740992,
        ;
        lemma_rhe_at_most(10 * p, d, 1000);
    }
}

proof fn lemma_key_facts(mode: crate::app::SortMode, a: FileEntry, b: FileEntry, c: FileEntry)
    ensures
        same_key(mode, a, a),
        same_key(mode, a, b) ==> (goes_before(mode, c, a) == goes_before(mode, c, b)),
        same_key(mode, a, b) ==> (goes_before(mode, a, c) == goes_before(mode, b, c)),
        same_key(mode, a, b) ==> !goes_before(mode, a, b),
        !goes_before(mode, a, b) && !goes_before(mode, b, a) ==> same_key(mode, a, b),
{
    match mode {
        crate::app::SortMode::Size => {},
        crate::app::SortMode::Name => {
            crate::text::lemma_seq_lt_irreflexive(a.name@);
            crate::text::lemma_seq_lt_total(a.name@, b.name@);
        },
    }
}

proof fn lemma_class_of_push(mode: crate::app::SortMode, s: Seq<FileEntry>, e: FileEntry)
    requires
        s.len() > 0,
    ensures
        key_class(mode, s, e) == (if same_key(mode, s.last(), e) {
            key_class(mode, s.drop_last(), e).push(s.last())
        } else {
            key_class(mode, s.drop_last(), e)
        }),
{
    reveal(Seq::filter);
}

proof fn lemma_class_member(mode: crate::app::SortMode, s: Seq<FileEntry>, e: FileEntry)
    requires
        key_class(mode, s, e).len() > 0,
    ensures
        exists|i: int| 0 <= i < s.len() && same_key(mode, #[trigger] s[i], e),
    decreases s.len(),
{
    reveal(Seq::filter);
    if s.len() == 0 {
        assert(key_class(mode, s, e) == Seq::<FileEntry>::empty());
    } else {
        lemma_class_of_push(mode, s, e);
        if !same_key(mode, s.last(), e) {
            lemma_class_member(mode, s.drop_last(), e);
            let i = choose|i: int| 0 <= i < s.drop_last().len() && same_key(mode, #[trigger] s.drop_last()[i], e);
            assert(s[i] == s.drop_last()[i]);
        } else {
            assert(same_key(mode, s[s.len() - 1], e));
        }
    }
}

proof fn lemma_last_not_before(mode: crate::app::SortMode, x: Seq<FileEntry>, b: FileEntry)
    requires
        sorted_by(mode, x),
        x.len() > 0,
        key_class(mode, x, b).len() > 0,
    ensures
        !goes_before(mode, x.last(), b),
{
    lemma_class_member(mode, x, b);
    let i = choose|i: int| 0 <= i < x.len() && same_key(mode, #[trigger] x[i], b);
    let a = x.last();
    lemma_key_facts(mode, x[i], b, a);
    lemma_key_facts(mode, a, x[i], a);
    if i < x.len() - 1 {
        assert(!goes_before(mode, x[x.len() - 1], x[i]));
    }
}

/// A stable order is fully determined: two sorted sequences that hold, for every
/// key, the same entries in the same order, are the same.
pub proof fn law_sorted_order_is_unique(mode: crate::app::SortMode, x: Seq<FileEntry>, y: Seq<FileEntry>)
    requires
        sorted_by(mode, x),
        sorted_by(mode, y),
        forall|e: FileEntry| #[trigger] key_class(mode, x, e) == key_class(mode, y, e),
    ensures
        x == y,
    decreases x.len(),
{
    if x.len() == 0 && y.len() == 0 {
        assert(x == y);
    } else if x.len() == 0 {
        let b = y.last();
        lemma_class_of_push(mode, y, b);
        lemma_key_facts(mode, b, b, b);
        assert(key_class(mode, x, b) == key_class(mode, y, b));
        lemma_class_member(mode, x, b);
    } else if y.len() == 0 {
        let a = x.last();
        lemma_class_of_push(mode, x, a);
        lemma_key_facts(mode, a, a, a);
        assert(key_class(mode, x, a) == key_class(mode, y, a));
        lemma_class_member(mode, y, a);
    } else {
        let a = x.last();
        let b = y.last();
        lemma_key_facts(mode, a, a, a);
        lemma_key_facts(mode, b, b, b);
        lemma_class_of_push(mode, y, b);
        assert(key_class(mode, x, b) == key_class(mode, y, b));
        lemma_last_not_before(mode, x, b);
        lemma_class_of_push(mode, x, a);
        assert(key_class(mode, x, a) == key_class(mode, y, a));
        lemma_last_not_before(mode, y, a);
        lemma_key_facts(mode, a, b, a);
        assert(same_key(mode, a, b));
        lemma_key_facts(mode, b, a, b);
        lemma_class_of_push(mode, y, a);
        assert(same_key(mode, b, a));
        assert(key_class(mode, y, a) == key_class(mode, y.drop_last(), a).push(b));
        assert(key_class(mode, x, a) == key_class(mode, x.drop_last(), a).push(a));
        assert(key_class(mode, x, a).last() == a);
        assert(key_class(mode, y, a).last() == b);
        assert(a == b);
        let xs = x.drop_last();
        let ys = y.drop_last();
        assert forall|e: FileEntry| #[trigger] key_class(mode, xs, e) == key_class(mode, ys, e) by {
            lemma_class_of_push(mode, x, e);
            lemma_class_of_push(mode, y, e);
            assert(key_class(mode, x, e) == key_class(mode, y, e));
            if same_key(mode, a, e) {
                assert(key_class(mode, xs, e) == key_class(mode, x, e).drop_last());
                assert(key_class(mode, ys, e) == key_class(mode, y, e).drop_last());
            }
        }
        assert(sorted_by(mode, xs));
        assert(sorted_by(mode, ys));
        law_sorted_order_is_unique(mode, xs, ys);
        assert(x == xs.push(a));
        assert(y == ys.push(b));
    }
}

/// Sorting gives one answer only, and sorting its answer again changes nothing.
pub proof fn law_sort_is_deterministic_and_idempotent(
    mode: crate::app::SortMode,
    input: Seq<FileEntry>,
    first: Seq<FileEntry>,
    second: Seq<FileEntry>,
)
    requires
        stably_sorted(mode, input, first),
    ensures
        stably_sorted(mode, input, second) ==> second == first,
        stably_sorted(mode, first, second) ==> second == first,
{
    if stably_sorted(mode, input, second) {
        assert forall|e: FileEntry| #[trigger] key_class(mode, first, e) == key_class(mode, second, e) by {
            assert(key_class(mode, input, e) == key_class(mode, first, e));
            assert(key_class(mode, input, e) == key_class(mode, second, e));
        }
        law_sorted_order_is_unique(mode, first, second);
    }
    if stably_sorted(mode, first, second) {
        law_sorted_order_is_unique(mode, first, second);
    }
}

/// The listing agrees with the entries: they are in the current order and the lines
/// are those of the entries that the filter shows.
pub open spec fn listing_consistent(v: AppView) -> bool {
    &&& sorted_by(v.sort_mode, v.raw_entries)
    &&& v.nodes == display_lines(v.raw_entries, v.filter_query, v.total_size)
}

/// An ordered sequence is its own stable sort.
proof fn lemma_sorted_is_own_sort(mode: crate::app::SortMode, s: Seq<FileEntry>, out: Seq<FileEntry>)
    requires
        sorted_by(mode, s),
        stably_sorted(mode, s, out),
    ensures
        out == s,
{
    law_sort_is_deterministic_and_idempotent(mode, s, out, s);
}

/// While filtering, typing a character and erasing it gives back the same state.
pub proof fn law_filter_type_then_erase(
    pre: AppView,
    mid: AppView,
    post: AppView,
    c: char,
    c1: Command,
    c2: Command,
)
    requires
        pre.mode == AppMode::Filter,
        listing_consistent(pre),
        filter_step(pre, Key::Char(c), mid, c1),
        filter_step(mid, Key::Backspace, post, c2),
    ensures
        post == pre,
        c1 == Command::Nothing,
        c2 == Command::Nothing,
{
    lemma_sorted_is_own_sort(pre.sort_mode, pre.raw_entries, mid.raw_entries);
    assert(mid.mode == AppMode::Filter);
    assert(mid.filter_query == pre.filter_query.push(c));
    assert(sorted_by(mid.sort_mode, mid.raw_entries));
    lemma_sorted_is_own_sort(mid.sort_mode, mid.raw_entries, post.raw_entries);
    assert(pre.filter_query.push(c).drop_last() == pre.filter_query);
}

/// Every key keeps the listing in agreement with the entries, the order and the
/// filter.
pub proof fn law_keys_keep_listing_consistent(pre: AppView, key: Key, post: AppView, cmd: Command)
    requires
        listing_consistent(pre),
        key_step(pre, key, post, cmd),
    ensures
        listing_consistent(post),
{
}

/// A scan result, taken in or failed, leaves the listing in agreement with the
/// entries, the order and the filter.
pub proof fn law_scan_results_give_consistent_listing(
    pre: AppView,
    entries: Seq<FileEntry>,
    total: u64,
    post: AppView,
)
    ensures
        scan_taken(pre, entries, total, post) ==> listing_consistent(post),
        scan_failed(pre, post) ==> listing_consistent(post),
{
    if scan_failed(pre, post) {
        reveal(Seq::filter);
        assert(display_lines(Seq::<FileEntry>::empty(), post.filter_query, post.total_size) == Seq::<Seq<char>>::empty());
    }
}


proof fn lemma_decimal_is_a_word(n: nat)
    ensures
        decimal(n).len() > 0,
        forall|i: int| 0 <= i < decimal(n).len() ==> !is_white_space(#[trigger] decimal(n)[i]),
    decreases n,
{
    if n >= 10 {
        lemma_decimal_is_a_word(n / 10);
    }
}

proof fn lemma_size_text_is_a_word(size: u64)
    ensures
        size_text(size).len() > 0,
        forall|i: int| 0 <= i < size_text(size).len() ==> !is_white_space(#[trigger] size_text(size)[i]),
{
    let t = size_text(size);
    if size >= GIB {
        lemma_decimal_is_a_word(tenths_of(size as nat, GIB as nat) / 10);
    } else if size >= MIB {
        lemma_decimal_is_a_word(tenths_of(size as nat, MIB as nat) / 10);
    } else if size >= KIB {
        lemma_decimal_is_a_word(tenths_of(size as nat, KIB as nat) / 10);
    } else {
        lemma_decimal_is_a_word(size as nat);
    }
}

proof fn lemma_trim_spaces(pad: Seq<char>, x: Seq<char>)
    requires
        forall|i: int| 0 <= i < pad.len() ==> #[trigger] pad[i] == ' ',
        x.len() > 0,
        !is_white_space(x[0]),
    ensures
        trim_white_start(pad + x) == x,
    decreases pad.len(),
{
    if pad.len() == 0 {
        assert(pad + x == x);
    } else {
        assert((pad + x).drop_first() == pad.drop_first() + x);
        assert((pad + x)[0] == ' ');
        lemma_trim_spaces(pad.drop_first(), x);
    }
}

proof fn lemma_leading_word_before_space(w: Seq<char>, rest: Seq<char>)
    requires
        forall|i: int| 0 <= i < w.len() ==> !is_white_space(#[trigger] w[i]),
        rest.len() > 0,
        is_white_space(rest[0]),
    ensures
        leading_word(w + rest) == w,
    decreases w.len(),
{
    if w.len() == 0 {
        assert(w + rest == rest);
    } else {
        assert((w + rest).drop_first() == w.drop_first() + rest);
        assert((w + rest)[0] == w[0]);
        lemma_leading_word_before_space(w.drop_first(), rest);
        assert(seq![w[0]] + w.drop_first() == w);
    }
}

/// The first word of an entry's line is the entry's size as `format_size` writes
/// it; the screen colours the line by it.
pub proof fn law_line_starts_with_size(e: FileEntry, total: u64)
    ensures
        first_word(display_line(e, total)) == Some(size_text(e.size)),
{
    let st = size_text(e.size);
    lemma_size_text_is_a_word(e.size);
    let line = display_line(e, total);
    let padded = pad_left(st, 8);
    let pad = if st.len() < 8 { Seq::new((8 - st.len()) as nat, |i: int| ' ') } else { Seq::<char>::empty() };
    assert(padded == pad + st);
    let rest = line.subrange(padded.len() as int, line.len() as int);
    assert(line == padded + rest);
    assert(rest[0] == ' ');
    assert(line == pad + (st + rest));
    assert((st + rest)[0] == st[0]);
    lemma_trim_spaces(pad, st + rest);
    lemma_leading_word_before_space(st, rest);
}


/// Sorting by size lists the largest first: in a stable sort by size, no entry
/// is followed by a larger one.
pub proof fn law_size_order_largest_first(input: Seq<FileEntry>, output: Seq<FileEntry>)
    requires
        stably_sorted(SortMode::Size, input, output),
    ensures
        forall|i: int, j: int| 0 <= i < j < output.len() ==> #[trigger] output[i].size >= #[trigger] output[j].size,
{
    assert forall|i: int, j: int| 0 <= i < j < output.len() implies #[trigger] output[i].size >= #[trigger] output[j].size by {
        assert(!goes_before(SortMode::Size, output[j], output[i]));
    }
}

/// `a` comes no later than `b` in code point order: `a` is a prefix of `b`, or at
/// the first place where they differ `a` has the smaller code point.
pub open spec fn code_point_le(a: Seq<char>, b: Seq<char>) -> bool {
    exists|k: int|
        0 <= k <= a.len() && k <= b.len() && #[trigger] a.take(k) == b.take(k) && (k == a.len() || (k
            < b.len() && (a[k] as u32) < (b[k] as u32)))
}

proof fn lemma_not_after_is_le(a: Seq<char>, b: Seq<char>)
    requires
        !seq_lt(b, a),
    ensures
        code_point_le(a, b),
    decreases a.len(),
{
    if a.len() == 0 {
        assert(a.take(0) == b.take(0));
    } else if b.len() == 0 {
    } else if a[0] != b[0] {
        assert(a.take(0) =~= b.take(0));
        vstd::utf8::char_u32_cast(a[0], a[0] as u32);
        vstd::utf8::char_u32_cast(b[0], b[0] as u32);
        assert((a[0] as u32) < (b[0] as u32));
    } else {
        let a1 = a.drop_first();
        let b1 = b.drop_first();
        lemma_not_after_is_le(a1, b1);
        let k = choose|k: int|
            0 <= k <= a1.len() && k <= b1.len() && #[trigger] a1.take(k) == b1.take(k) && (k == a1.len()
                || (k < b1.len() && (a1[k] as u32) < (b1[k] as u32)));
        assert(a.take(k + 1) =~= seq![a[0]] + a1.take(k));
        assert(b.take(k + 1) =~= seq![b[0]] + b1.take(k));
        assert(a.take(k + 1) == b.take(k + 1));
        if k < a1.len() {
            assert(a[k + 1] == a1[k]);
            assert(b[k + 1] == b1[k]);
        }
    }
}

/// Sorting by name lists the names in code point order: each name comes no later
/// than the ones after it.
pub proof fn law_name_order_by_code_points(input: Seq<FileEntry>, output: Seq<FileEntry>)
    requires
        stably_sorted(SortMode::Name, input, output),
    ensures
        forall|i: int, j: int| 0 <= i < j < output.len() ==> code_point_le(#[trigger] output[i].name@, #[trigger] output[j].name@),
{
    assert forall|i: int, j: int| 0 <= i < j < output.len() implies code_point_le(#[trigger] output[i].name@, #[trigger] output[j].name@) by {
        assert(!goes_before(SortMode::Name, output[j], output[i]));
        lemma_not_after_is_le(output[i].name@, output[j].name@);
    }
}

/// `needle` stands in `hay` from place `i` on, character by character.
pub open spec fn run_at(needle: Seq<char>, hay: Seq<char>, i: int) -> bool {
    &&& 0 <= i
    &&& i + needle.len() <= hay.len()
    &&& forall|k: int| 0 <= k < needle.len() ==> #[trigger] hay[i + k] == needle[k]
}

/// A text occurs in another exactly when it stands there as one unbroken run of
/// characters, at some place where it fits; so it is never longer than the other.
pub proof fn law_occurs_means_unbroken_run(needle: Seq<char>, hay: Seq<char>)
    ensures
        occurs_in(needle, hay) <==> exists|i: int| #[trigger] run_at(needle, hay, i),
        occurs_in(needle, hay) ==> needle.len() <= hay.len(),
{
    if occurs_in(needle, hay) {
        let i = choose|i: int| 0 <= i && i + needle.len() <= hay.len() && #[trigger] hay.subrange(i, i + needle.len()) == needle;
        assert forall|k: int| 0 <= k < needle.len() implies #[trigger] hay[i + k] == needle[k] by {
            assert(hay.subrange(i, i + needle.len())[k] == hay[i + k]);
        }
        assert(run_at(needle, hay, i));
    }
    if exists|i: int| #[trigger] run_at(needle, hay, i) {
        let i = choose|i: int| #[trigger] run_at(needle, hay, i);
        assert forall|k: int| 0 <= k < needle.len() implies #[trigger] hay.subrange(i, i + needle.len())[k] == needle[k] by {
            assert(hay[i + k] == needle[k]);
        }
        assert(hay.subrange(i, i + needle.len()) =~= needle);
    }
}

/// The filter shows an entry exactly when the filter is empty or, both lowercased,
/// the filter stands in the name as one unbroken run of characters.
pub proof fn law_filter_matches_unbroken_run(filter: Seq<char>, e: FileEntry)
    ensures
        shown(filter, e) <==> (filter.len() == 0 || exists|i: int| #[trigger] run_at(lowercase(filter), lowercase(e.name@), i)),
{
    law_occurs_means_unbroken_run(lowercase(filter), lowercase(e.name@));
}

/// Taking in a scan keeps the chosen order and sorts the new entries by it; it
/// keeps the mode, the filter, the language, the deletion target and the typed
/// path, takes the new total, highlights the first line and leaves nothing pending.
pub proof fn law_scan_keeps_order_and_settings(pre: AppView, entries: Seq<FileEntry>, total: u64, post: AppView)
    requires
        scan_taken(pre, entries, total, post),
    ensures
        post.sort_mode == pre.sort_mode,
        stably_sorted(pre.sort_mode, entries, post.raw_entries),
        entries.to_multiset() == post.raw_entries.to_multiset(),
        post.mode == pre.mode,
        post.filter_query == pre.filter_query,
        post.lang == pre.lang,
        post.delete_target == pre.delete_target,
        post.input_buffer == pre.input_buffer,
        post.scan_id == pre.scan_id,
        post.total_size == total,
        post.selected == Some(0usize),
        !post.loading,
{
    law_sort_keeps_entries(pre.sort_mode, entries, post.raw_entries);
}

/// A failed scan empties the listing and the total, highlights the first line and
/// leaves nothing pending, keeping the order, the mode, the filter and the language.
pub proof fn law_failed_scan_empties_listing(pre: AppView, post: AppView)
    requires
        scan_failed(pre, post),
    ensures
        post.raw_entries.len() == 0,
        post.nodes.len() == 0,
        post.total_size == 0,
        post.selected == Some(0usize),
        !post.loading,
        post.sort_mode == pre.sort_mode,
        post.mode == pre.mode,
        post.filter_query == pre.filter_query,
        post.lang == pre.lang,
        post.scan_id == pre.scan_id,
{
}

/// The colour of a line by the size it shows: red from 1 GiB, yellow from 100 MiB,
/// light blue from 10 MiB, green from 1 MiB, gray below.
pub proof fn law_color_bands(size: u64)
    ensures
        (size_color(size) == SizeColor::Red) <==> size >= 1073741824,
        (size_color(size) == SizeColor::Yellow) <==> 104857600 <= size < 1073741824,
        (size_color(size) == SizeColor::LightBlue) <==> 10485760 <= size < 104857600,
        (size_color(size) == SizeColor::Green) <==> 1048576 <= size < 10485760,
        (size_color(size) == SizeColor::Gray) <==> size < 1048576,
{
}

/// While a deletion awaits confirmation, the status line tells that `y` answers
/// yes and `n` answers no, and so it is: `y` asks to delete the chosen name, `n`
/// deletes nothing and both return to browsing.
pub proof fn law_confirm_prompt_matches_keys(
    lang: Language,
    input: Seq<char>,
    filter: Seq<char>,
    pre: AppView,
    yes: AppView,
    c_yes: Command,
    no: AppView,
    c_no: Command,
    name: Seq<char>,
)
    requires
        pre.mode == AppMode::ConfirmDelete,
        pre.delete_target == Some(name),
        key_step(pre, Key::Char('y'), yes, c_yes),
        key_step(pre, Key::Char('n'), no, c_no),
    ensures
        lang == Language::English ==> status(AppMode::ConfirmDelete, lang, input, filter).subrange(23, 30) == "y - yes"@
            && status(AppMode::ConfirmDelete, lang, input, filter).subrange(32, 38) == "n - no"@,
        lang == Language::Russian ==> status(AppMode::ConfirmDelete, lang, input, filter).subrange(28, 34) == "y - да"@
            && status(AppMode::ConfirmDelete, lang, input, filter).subrange(36, 43) == "n - нет"@,
        c_yes == Command::Delete(name),
        c_no == Command::Nothing,
        yes.mode == AppMode::Browse && no.mode == AppMode::Browse,
        yes.delete_target is None && no.delete_target is None,
{
    reveal_strlit("Delete selected item? (y - yes, n - no)");
    reveal_strlit("y - yes");
    reveal_strlit("n - no");
    reveal_strlit("Удалить выбранный элемент? (y - да, n - нет)");
    reveal_strlit("y - да");
    reveal_strlit("n - нет");
    match lang {
        Language::English => {
            assert(status(AppMode::ConfirmDelete, lang, input, filter).subrange(23, 30) =~= "y - yes"@);
            assert(status(AppMode::ConfirmDelete, lang, input, filter).subrange(32, 38) =~= "n - no"@);
        },
        Language::Russian => {
            assert(status(AppMode::ConfirmDelete, lang, input, filter).subrange(28, 34) =~= "y - да"@);
            assert(status(AppMode::ConfirmDelete, lang, input, filter).subrange(36, 43) =~= "n - нет"@);
        },
    }
}

/// While a path or a filter is typed, the status line ends with what was typed.
pub proof fn law_typing_status_ends_with_text(lang: Language, input: Seq<char>, filter: Seq<char>)
    ensures
        status(AppMode::InputPath, lang, input, filter).len() >= input.len() + 2,
        status(AppMode::InputPath, lang, input, filter).skip(status(AppMode::InputPath, lang, input, filter).len() - input.len()) == input,
        status(AppMode::Filter, lang, input, filter).len() >= filter.len() + 2,
        status(AppMode::Filter, lang, input, filter).skip(status(AppMode::Filter, lang, input, filter).len() - filter.len()) == filter,
{
    let a = status(AppMode::InputPath, lang, input, filter);
    let b = status(AppMode::Filter, lang, input, filter);
    assert(a.skip(a.len() - input.len()) =~= input);
    assert(b.skip(b.len() - filter.len()) =~= filter);
}

}
