//! What the screen shows, as plain values: colours by size, the texts of the
//! title and the status line, and where each box goes.
use vstd::prelude::*;
use vstd::string::*;
use crate::app::{App, AppMode, Language, lines_view};
use crate::format::{decimal, size_text, format_size, push_decimal, push_char, GIB, MIB};

verus! {

/// The colour of a line, by the size it shows.
#[derive(PartialEq, Eq, Clone, Copy, Debug, Structural)]
pub enum SizeColor {
    Red,
    Yellow,
    LightBlue,
    Green,
    Gray,
}

/// Red from 1 GiB, yellow from 100 MiB, light blue from 10 MiB, green from 1 MiB,
/// gray below.
pub open spec fn size_color(size: u64) -> SizeColor {
    if size >= GIB {
        SizeColor::Red
    } else if size >= 100 * MIB {
        SizeColor::Yellow
    } else if size >= 10 * MIB {
        SizeColor::LightBlue
    } else if size >= MIB {
        SizeColor::Green
    } else {
        SizeColor::Gray
    }
}

/// The colour for a size.
pub fn color_for_size(size: u64) -> (c: SizeColor)
    ensures
        c == size_color(size),
{
    if size >= GIB {
        SizeColor::Red
    } else if size >= 100 * MIB {
        SizeColor::Yellow
    } else if size >= 10 * MIB {
        SizeColor::LightBlue
    } else if size >= MIB {
        SizeColor::Green
    } else {
        SizeColor::Gray
    }
}

/// Appends a literal.
fn push_str(s: &mut String, t: &str)
    ensures
        final(s)@ == old(s)@ + t@,
{
    s.append(t);
}

/// The title of the list: the path, shown and total entry counts, the total size,
/// and the filter when there is one.
pub open spec fn title(
    path: Seq<char>,
    shown: usize,
    entries: usize,
    total_size: u64,
    filter: Seq<char>,
    lang: Language,
) -> Seq<char> {
    let (items, size, filt) = match lang {
        Language::English => ("  |  Items: "@, "  |  Total Size: "@, "  |  Filter: '"@),
        Language::Russian => (
            "  |  Элементов: "@,
            "  |  Общий размер: "@,
            "  |  Фильтр: '"@,
        ),
    };
    path + items + decimal(shown as nat) + seq!['/'] + decimal(entries as nat) + size + size_text(
        total_size,
    ) + if filter.len() > 0 {
        filt + filter + seq!['\'']
    } else {
        Seq::empty()
    }
}

/// The title of the list for the browser's state and the displayed path.
pub fn title_text(app: &App, path: &str) -> (t: String)
    ensures
        t@ == title(
            path@,
            app.nodes.len(),
            app.raw_entries.len(),
            app.total_size,
            app.filter_query@,
            app.lang,
        ),
{
    let mut t = String::new();
    push_str(&mut t, path);
    let (items, size, filt) = match app.lang {
        Language::English => ("  |  Items: ", "  |  Total Size: ", "  |  Filter: '"),
        Language::Russian => (
            "  |  Элементов: ",
            "  |  Общий размер: ",
            "  |  Фильтр: '",
        ),
    };
    push_str(&mut t, items);
    push_decimal(&mut t, app.nodes.len() as u128);
    push_char(&mut t, '/');
    push_decimal(&mut t, app.raw_entries.len() as u128);
    push_str(&mut t, size);
    let total = format_size(app.total_size);
    push_str(&mut t, total.as_str());
    if !app.filter_query.as_str().is_empty() {
        push_str(&mut t, filt);
        push_str(&mut t, app.filter_query.as_str());
        push_char(&mut t, '\'');
    }
    t
}

/// The status line under the list, by mode and language; while text is typed it
/// shows a prompt and the text.
pub open spec fn status(mode: AppMode, lang: Language, input: Seq<char>, filter: Seq<char>) -> Seq<char> {
    match mode {
        AppMode::Browse => match lang {
            Language::English => "Help (? or Shift + /) | Filter (/)"@,
            Language::Russian => "Справка (? или Shift + /) | Фильтр (/)"@,
        },
        AppMode::ConfirmDelete => match lang {
            Language::English => "Delete selected item? (y - yes, n - no)"@,
            Language::Russian => "Удалить выбранный элемент? (y - да, n - нет)"@,
        },
        AppMode::InputPath => (match lang {
            Language::English => "Enter path"@,
            Language::Russian => "Введите путь"@,
        }) + seq![':', ' '] + input,
        AppMode::Filter => (match lang {
            Language::English => "Filter query"@,
            Language::Russian => "Фильтр"@,
        }) + seq![':', ' '] + filter,
        AppMode::Help => match lang {
            Language::English => "Press any key or '?' to close help"@,
            Language::Russian => "Нажмите любую клавишу или '?' для закрытия"@,
        },
    }
}

/// The status line for the browser's state.
pub fn status_text(app: &App) -> (t: String)
    ensures
        t@ == status(app.mode, app.lang, app.input_buffer@, app.filter_query@),
{
    let mut t = String::new();
    match app.mode {
        AppMode::Browse => match app.lang {
            Language::English => push_str(&mut t, "Help (? or Shift + /) | Filter (/)"),
            Language::Russian => push_str(&mut t, "Справка (? или Shift + /) | Фильтр (/)"),
        },
        AppMode::ConfirmDelete => match app.lang {
            Language::English => push_str(&mut t, "Delete selected item? (y - yes, n - no)"),
            Language::Russian => push_str(&mut t, "Удалить выбранный элемент? (y - да, n - нет)"),
        },
        AppMode::InputPath => {
            match app.lang {
                Language::English => push_str(&mut t, "Enter path"),
                Language::Russian => push_str(&mut t, "Введите путь"),
            }
            push_char(&mut t, ':');
            push_char(&mut t, ' ');
            push_str(&mut t, app.input_buffer.as_str());
        },
        AppMode::Filter => {
            match app.lang {
                Language::English => push_str(&mut t, "Filter query"),
                Language::Russian => push_str(&mut t, "Фильтр"),
            }
            push_char(&mut t, ':');
            push_char(&mut t, ' ');
            push_str(&mut t, app.filter_query.as_str());
        },
        AppMode::Help => match app.lang {
            Language::English => push_str(&mut t, "Press any key or '?' to close help"),
            Language::Russian => push_str(&mut t, "Нажмите любую клавишу или '?' для закрытия"),
        },
    }
    t
}

/// The notice shown while a scan is pending.
pub open spec fn loading_notice(lang: Language) -> Seq<char> {
    match lang {
        Language::English => "Loading..."@,
        Language::Russian => "Загрузка..."@,
    }
}

/// The notice shown while a scan is pending.
pub fn loading_text(lang: Language) -> (t: String)
    ensures
        t@ == loading_notice(lang),
{
    let mut t = String::new();
    match lang {
        Language::English => push_str(&mut t, "Loading..."),
        Language::Russian => push_str(&mut t, "Загрузка..."),
    }
    t
}

/// A rectangle of the screen, in cells.
#[derive(PartialEq, Eq, Clone, Copy, Debug, Structural)]
pub struct Area {
    pub x: u16,
    pub y: u16,
    pub width: u16,
    pub height: u16,
}

/// The list: the whole screen but its last two rows.
pub fn list_area(screen: Area) -> (a: Area)
    ensures
        a == (Area {
            height: if screen.height >= 2 { (screen.height - 2) as u16 } else { 0 },
            ..screen
        }),
{
    Area { height: if screen.height >= 2 { screen.height - 2 } else { 0 }, ..screen }
}

/// The status line: two rows starting two rows above the screen's height.
pub fn bottom_area(screen: Area) -> (a: Area)
    requires
        screen.height >= 2,
    ensures
        a == (Area { x: screen.x, y: (screen.height - 2) as u16, width: screen.width, height: 2 }),
{
    Area { x: screen.x, y: screen.height - 2, width: screen.width, height: 2 }
}

/// The loading notice: twelve cells by one, left of and above the middle.
pub fn loading_area(screen: Area) -> (a: Area)
    requires
        screen.width / 2 >= 6,
        screen.height / 2 >= 1,
    ensures
        a == (Area {
            x: (screen.width / 2 - 6) as u16,
            y: (screen.height / 2 - 1) as u16,
            width: 12,
            height: 1,
        }),
{
    Area { x: screen.width / 2 - 6, y: screen.height / 2 - 1, width: 12, height: 1 }
}

/// Width and height of the help window.
pub const HELP_WIDTH: u16 = 72;
pub const HELP_HEIGHT: u16 = 20;

/// The help window: 72 by 20 cells, centred, cut to the screen.
pub fn help_area(screen: Area) -> (a: Area)
    ensures
        a == (Area {
            x: (if screen.width >= HELP_WIDTH { (screen.width - HELP_WIDTH) / 2 } else { 0 }) as u16,
            y: (if screen.height >= HELP_HEIGHT { (screen.height - HELP_HEIGHT) / 2 } else { 0 }) as u16,
            width: if screen.width < HELP_WIDTH { screen.width } else { HELP_WIDTH },
            height: if screen.height < HELP_HEIGHT { screen.height } else { HELP_HEIGHT },
        }),
{
    let x = if screen.width >= HELP_WIDTH { (screen.width - HELP_WIDTH) / 2 } else { 0 };
    let y = if screen.height >= HELP_HEIGHT { (screen.height - HELP_HEIGHT) / 2 } else { 0 };
    let width = if screen.width < HELP_WIDTH { screen.width } else { HELP_WIDTH };
    let height = if screen.height < HELP_HEIGHT { screen.height } else { HELP_HEIGHT };
    Area { x, y, width, height }
}


/// The title of the help window.
pub open spec fn help_title(lang: Language) -> Seq<char> {
    match lang {
        Language::English => " Help & About "@,
        Language::Russian => " Справка и описание "@,
    }
}

/// The lines of the help window: a heading, the keys and what they do, and how
/// to close it.
pub open spec fn help_text(lang: Language) -> Seq<Seq<char>> {
    match lang {
        Language::English => seq![
            "RustDU - Help & Functions Description"@,
            ""@,
            "Navigation & Control:"@,
            "  • ↑ / ↓        : Navigate through files and folders"@,
            "  • Enter        : Open selected directory"@,
            "  • Backspace    : Go back to parent directory"@,
            "  • g            : Enter a custom path manually"@,
            "  • /            : Filter/search items by name"@,
            ""@,
            "Actions & Sorting:"@,
            "  • d            : Delete selected file or folder (with confirmation)"@,
            "  • s            : Sort items by size"@,
            "  • n            : Sort items by name"@,
            "  • r            : Refresh current directory scan"@,
            ""@,
            "Settings & System:"@,
            "  • l            : Switch language (English / Русский)"@,
            "  • ? (Shift+/)  : Open or close this help window"@,
            "  • q / Esc      : Quit application"@,
            ""@,
            "Press any key to close"@,
        ],
        Language::Russian => seq![
            "RustDU - Справка и описание функций"@,
            ""@,
            "Навигация и управление:"@,
            "  • ↑ / ↓        : Перемещение по списку файлов и папок"@,
            "  • Enter        : Войти в выбранную директорию"@,
            "  • Backspace    : Вернуться в родительскую папку"@,
            "  • g            : Ввести путь для перехода вручную"@,
            "  • /            : Отфильтровать элементы по имени"@,
            ""@,
            "Действия и сортировка:"@,
            "  • d            : Удалить файл/папку (с подтверждением)"@,
            "  • s            : Сортировать элементы по размеру"@,
            "  • n            : Сортировать элементы по имени"@,
            "  • r            : Обновить сканирование папки"@,
            ""@,
            "Настройки и система:"@,
            "  • l            : Переключить язык (English / Русский)"@,
            "  • ? (Shift+/)  : Открыть или закрыть это окно справки"@,
            "  • q / Esc      : Выход из программы"@,
            ""@,
            "Нажмите любую клавишу для закрытия"@,
        ],
    }
}

/// A string holding a literal.
fn text(t: &str) -> (s: String)
    ensures
        s@ == t@,
{
    let mut s = String::new();
    push_str(&mut s, t);
    s
}

/// The title of the help window.
pub fn help_title_text(lang: Language) -> (t: String)
    ensures
        t@ == help_title(lang),
{
    match lang {
        Language::English => text(" Help & About "),
        Language::Russian => text(" Справка и описание "),
    }
}

/// The lines of the help window.
pub fn help_lines(lang: Language) -> (v: Vec<String>)
    ensures
        lines_view(v@) == help_text(lang),
{
    let mut v: Vec<String> = Vec::new();
    match lang {
        Language::English => {
            v.push(text("RustDU - Help & Functions Description"));
            v.push(text(""));
            v.push(text("Navigation & Control:"));
            v.push(text("  • ↑ / ↓        : Navigate through files and folders"));
            v.push(text("  • Enter        : Open selected directory"));
            v.push(text("  • Backspace    : Go back to parent directory"));
            v.push(text("  • g            : Enter a custom path manually"));
            v.push(text("  • /            : Filter/search items by name"));
            v.push(text(""));
            v.push(text("Actions & Sorting:"));
            v.push(text("  • d            : Delete selected file or folder (with confirmation)"));
            v.push(text("  • s            : Sort items by size"));
            v.push(text("  • n            : Sort items by name"));
            v.push(text("  • r            : Refresh current directory scan"));
            v.push(text(""));
            v.push(text("Settings & System:"));
            v.push(text("  • l            : Switch language (English / Русский)"));
            v.push(text("  • ? (Shift+/)  : Open or close this help window"));
            v.push(text("  • q / Esc      : Quit application"));
            v.push(text(""));
            v.push(text("Press any key to close"));
        },
        Language::Russian => {
            v.push(text("RustDU - Справка и описание функций"));
            v.push(text(""));
            v.push(text("Навигация и управление:"));
            v.push(text("  • ↑ / ↓        : Перемещение по списку файлов и папок"));
            v.push(text("  • Enter        : Войти в выбранную директорию"));
            v.push(text("  • Backspace    : Вернуться в родительскую папку"));
            v.push(text("  • g            : Ввести путь для перехода вручную"));
            v.push(text("  • /            : Отфильтровать элементы по имени"));
            v.push(text(""));
            v.push(text("Действия и сортировка:"));
            v.push(text("  • d            : Удалить файл/папку (с подтверждением)"));
            v.push(text("  • s            : Сортировать элементы по размеру"));
            v.push(text("  • n            : Сортировать элементы по имени"));
            v.push(text("  • r            : Обновить сканирование папки"));
            v.push(text(""));
            v.push(text("Настройки и система:"));
            v.push(text("  • l            : Переключить язык (English / Русский)"));
            v.push(text("  • ? (Shift+/)  : Открыть или закрыть это окно справки"));
            v.push(text("  • q / Esc      : Выход из программы"));
            v.push(text(""));
            v.push(text("Нажмите любую клавишу для закрытия"));
        },
    }
    assert(lines_view(v@) =~= help_text(lang));
    v
}

}
