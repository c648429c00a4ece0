//! The interactive book picker's decisions: which list has focus, how the
//! arrow keys and single-letter jumps move the selections, and what pressing
//! Enter asks to run. Drawing the screen and reading keys is the caller's
//! part; it hands each key to [`tui_step`] and does what comes back.
use vstd::prelude::*;
use crate::plan::BuildReq;
use crate::text::{chars_of, copy_string, eq_str, push_str, string_of};

verus! {

/// The lists of the picker, in focus order (left to right, wrapping).
#[derive(PartialEq, Eq, Structural, Clone, Copy, Debug)]
pub enum Pane {
    Books,
    Action,
    Format,
    Language,
    Edition,
}

/// The picker's state: the cursor of each list and the focused list.
#[derive(PartialEq, Eq, Structural, Clone, Copy, Debug)]
pub struct Picker {
    pub book: usize,
    pub action: usize,
    pub format: usize,
    pub lang: usize,
    pub edition: usize,
    pub focus: Pane,
}

/// A key press, as the picker tells keys apart.
#[derive(PartialEq, Eq, Structural, Clone, Copy, Debug)]
pub enum Key {
    Char(char),
    Esc,
    Left,
    Right,
    Up,
    Down,
    Enter,
    Other,
}

/// What the picker asks to run.
#[derive(Debug, Clone)]
pub enum Action {
    /// A quick build of the selected format or edition, with no checks.
    Build(BuildReq),
    /// A complete build: every edition, the covers, and the deep validation.
    Release(BuildReq),
    /// The deep validation of a book.
    Validate { book: String },
    /// The covers of a book (`lang` is `all` or one language).
    Covers { book: String, lang: String },
    /// The audiobook of a book.
    Audiobook { book: String, lang: String },
}

/// What a key press leads to.
#[derive(Debug, Clone)]
pub enum Step {
    /// Keep picking, in this state.
    Stay(Picker),
    /// Leave without running anything.
    Quit,
    /// Leave and run this.
    Run(Action),
}

/// An action as plain values; a request is (book, language, edition, format).
pub enum ActionV {
    Build(Seq<char>, Seq<char>, Seq<char>, Seq<char>),
    Release(Seq<char>, Seq<char>, Seq<char>, Seq<char>),
    Validate(Seq<char>),
    Covers(Seq<char>, Seq<char>),
    Audiobook(Seq<char>, Seq<char>),
}

/// A step as plain values.
pub enum StepV {
    Stay(Picker),
    Quit,
    Run(ActionV),
}

impl View for Action {
    type V = ActionV;

    open spec fn view(&self) -> ActionV {
        match self {
            Action::Build(r) => ActionV::Build(r.book@, r.lang@, r.edition@, r.format@),
            Action::Release(r) => ActionV::Release(r.book@, r.lang@, r.edition@, r.format@),
            Action::Validate { book } => ActionV::Validate(book@),
            Action::Covers { book, lang } => ActionV::Covers(book@, lang@),
            Action::Audiobook { book, lang } => ActionV::Audiobook(book@, lang@),
        }
    }
}

impl View for Step {
    type V = StepV;

    open spec fn view(&self) -> StepV {
        match self {
            Step::Stay(p) => StepV::Stay(*p),
            Step::Quit => StepV::Quit,
            Step::Run(a) => StepV::Run(a@),
        }
    }
}

/// The actions, in list order: `all` (everything, as a release) first.
pub open spec fn action_names() -> Seq<Seq<char>> {
    seq!["all"@, "Build"@, "Release"@, "Validate"@, "Covers"@, "Audiobook"@]
}

/// The formats, in list order: `all` first; `edition` builds by the edition
/// list instead.
pub open spec fn format_names() -> Seq<Seq<char>> {
    seq!["all"@, "edition"@, "epub"@, "pdf"@, "kdp"@, "print"@]
}

/// The number of actions and of formats.
pub const N_ACTIONS: usize = 6;

/// The number of formats.
pub const N_FORMATS: usize = 6;

/// The action names, for drawing the list.
pub fn action_name(i: usize) -> (r: &'static str)
    requires
        i < N_ACTIONS,
    ensures
        r@ == action_names()[i as int],
{
    if i == 0 {
        "all"
    } else if i == 1 {
        "Build"
    } else if i == 2 {
        "Release"
    } else if i == 3 {
        "Validate"
    } else if i == 4 {
        "Covers"
    } else {
        "Audiobook"
    }
}

/// The format names, for drawing the list.
pub fn format_name(i: usize) -> (r: &'static str)
    requires
        i < N_FORMATS,
    ensures
        r@ == format_names()[i as int],
{
    if i == 0 {
        "all"
    } else if i == 1 {
        "edition"
    } else if i == 2 {
        "epub"
    } else if i == 3 {
        "pdf"
    } else if i == 4 {
        "kdp"
    } else {
        "print"
    }
}

/// The list after `p` in focus order, wrapping around.
pub open spec fn pane_next(p: Pane) -> Pane {
    match p {
        Pane::Books => Pane::Action,
        Pane::Action => Pane::Format,
        Pane::Format => Pane::Language,
        Pane::Language => Pane::Edition,
        Pane::Edition => Pane::Books,
    }
}

/// The list before `p` in focus order, wrapping around.
pub open spec fn pane_prev(p: Pane) -> Pane {
    match p {
        Pane::Books => Pane::Edition,
        Pane::Action => Pane::Books,
        Pane::Format => Pane::Action,
        Pane::Language => Pane::Format,
        Pane::Edition => Pane::Language,
    }
}

/// A cursor moved up: it stops at the top.
pub open spec fn cursor_up(i: usize) -> usize {
    if i == 0 {
        0
    } else {
        (i - 1) as usize
    }
}

/// A cursor moved down in a list of `len` items: it stops at the last one.
pub open spec fn cursor_down(i: usize, len: nat) -> usize {
    if len == 0 {
        0
    } else if i + 1 < len {
        (i + 1) as usize
    } else {
        (len - 1) as usize
    }
}

/// The choices of a language or edition list: `all`, then the book's own.
pub open spec fn with_all(xs: Seq<Seq<char>>) -> Seq<Seq<char>> {
    seq!["all"@] + xs
}

/// The choice under a cursor (a cursor past the end means the last choice).
pub open spec fn chosen(xs: Seq<Seq<char>>, i: usize) -> Seq<char> {
    let o = with_all(xs);
    if i < o.len() {
        o[i as int]
    } else {
        o[o.len() - 1]
    }
}

/// The state with the focus moved.
pub open spec fn focused(p: Pane, s: Picker) -> Picker {
    Picker { book: s.book, action: s.action, format: s.format, lang: s.lang, edition: s.edition, focus: p }
}

/// The state after moving up in the focused list.
pub open spec fn moved_up(s: Picker) -> Picker {
    match s.focus {
        Pane::Books => Picker { book: cursor_up(s.book), ..s },
        Pane::Action => Picker { action: cursor_up(s.action), ..s },
        Pane::Format => Picker { format: cursor_up(s.format), ..s },
        Pane::Language => Picker { lang: cursor_up(s.lang), ..s },
        Pane::Edition => Picker { edition: cursor_up(s.edition), ..s },
    }
}

/// The state after moving down in the focused list; the language and edition
/// lists hold `all` and the book's own.
pub open spec fn moved_down(s: Picker, n_books: nat, n_langs: nat, n_editions: nat) -> Picker {
    match s.focus {
        Pane::Books => Picker { book: cursor_down(s.book, n_books), ..s },
        Pane::Action => Picker { action: cursor_down(s.action, 6), ..s },
        Pane::Format => Picker { format: cursor_down(s.format, 6), ..s },
        Pane::Language => Picker { lang: cursor_down(s.lang, n_langs + 1), ..s },
        Pane::Edition => Picker { edition: cursor_down(s.edition, n_editions + 1), ..s },
    }
}

/// What Enter runs for the selected book `slug`: a release for `all` and
/// `Release`, the deep validation, the covers or the audiobook in the
/// selected language, else a quick build.
pub open spec fn spec_action_for(s: Picker, slug: Seq<char>, langs: Seq<Seq<char>>, editions: Seq<Seq<char>>) -> ActionV {
    let a = action_names()[(s.action % 6) as int];
    let lang = chosen(langs, s.lang);
    let ed = chosen(editions, s.edition);
    let f = format_names()[(s.format % 6) as int];
    if a == "Release"@ || a == "all"@ {
        ActionV::Release(slug, lang, ed, f)
    } else if a == "Validate"@ {
        ActionV::Validate(slug)
    } else if a == "Covers"@ {
        ActionV::Covers(slug, lang)
    } else if a == "Audiobook"@ {
        ActionV::Audiobook(slug, lang)
    } else {
        ActionV::Build(slug, lang, ed, f)
    }
}

/// One key press: `q` or Esc quits; ←/→ move the focus; ↑/↓ (or `k`/`j`) move
/// the focused list's cursor; `b`, `a`, `f`, `l`, `e` focus the books,
/// action, format, language or edition list; Enter runs the selection; any
/// other key changes nothing.
pub open spec fn spec_tui_step(
    s: Picker,
    key: Key,
    n_books: nat,
    slug: Seq<char>,
    langs: Seq<Seq<char>>,
    editions: Seq<Seq<char>>,
) -> StepV {
    match key {
        Key::Esc => StepV::Quit,
        Key::Left => StepV::Stay(focused(pane_prev(s.focus), s)),
        Key::Right => StepV::Stay(focused(pane_next(s.focus), s)),
        Key::Up => StepV::Stay(moved_up(s)),
        Key::Down => StepV::Stay(moved_down(s, n_books, langs.len(), editions.len())),
        Key::Enter => StepV::Run(spec_action_for(s, slug, langs, editions)),
        Key::Other => StepV::Stay(s),
        Key::Char(c) => if c == 'q' {
            StepV::Quit
        } else if c == 'k' {
            StepV::Stay(moved_up(s))
        } else if c == 'j' {
            StepV::Stay(moved_down(s, n_books, langs.len(), editions.len()))
        } else if c == 'b' {
            StepV::Stay(focused(Pane::Books, s))
        } else if c == 'a' {
            StepV::Stay(focused(Pane::Action, s))
        } else if c == 'f' {
            StepV::Stay(focused(Pane::Format, s))
        } else if c == 'l' {
            StepV::Stay(focused(Pane::Language, s))
        } else if c == 'e' {
            StepV::Stay(focused(Pane::Edition, s))
        } else {
            StepV::Stay(s)
        },
    }
}

/// Strings as plain values.
pub open spec fn names_view(v: Seq<String>) -> Seq<Seq<char>> {
    v.map_values(|s: String| s@)
}

fn up(i: usize) -> (r: usize)
    ensures
        r == cursor_up(i),
{
    if i == 0 {
        0
    } else {
        i - 1
    }
}

fn down(i: usize, len: usize) -> (r: usize)
    ensures
        r == cursor_down(i, len as nat),
{
    if len == 0 {
        0
    } else if i < len - 1 {
        i + 1
    } else {
        len - 1
    }
}

fn next_pane(p: Pane) -> (r: Pane)
    ensures
        r == pane_next(p),
{
    match p {
        Pane::Books => Pane::Action,
        Pane::Action => Pane::Format,
        Pane::Format => Pane::Language,
        Pane::Language => Pane::Edition,
        Pane::Edition => Pane::Books,
    }
}

fn prev_pane(p: Pane) -> (r: Pane)
    ensures
        r == pane_prev(p),
{
    match p {
        Pane::Books => Pane::Edition,
        Pane::Action => Pane::Books,
        Pane::Format => Pane::Action,
        Pane::Language => Pane::Format,
        Pane::Edition => Pane::Language,
    }
}

fn move_up(s: &Picker) -> (r: Picker)
    ensures
        r == moved_up(*s),
{
    let mut r = *s;
    match s.focus {
        Pane::Books => r.book = up(s.book),
        Pane::Action => r.action = up(s.action),
        Pane::Format => r.format = up(s.format),
        Pane::Language => r.lang = up(s.lang),
        Pane::Edition => r.edition = up(s.edition),
    }
    r
}

/// Down in a list of `n + 1` items (`all` and `n` others).
fn down_with_all(i: usize, n: usize) -> (r: usize)
    ensures
        r == cursor_down(i, n as nat + 1),
{
    if i < n {
        i + 1
    } else {
        n
    }
}

fn move_down(s: &Picker, n_books: usize, n_langs: usize, n_editions: usize) -> (r: Picker)
    ensures
        r == moved_down(*s, n_books as nat, n_langs as nat, n_editions as nat),
{
    let mut r = *s;
    match s.focus {
        Pane::Books => r.book = down(s.book, n_books),
        Pane::Action => r.action = down(s.action, N_ACTIONS),
        Pane::Format => r.format = down(s.format, N_FORMATS),
        Pane::Language => r.lang = down_with_all(s.lang, n_langs),
        Pane::Edition => r.edition = down_with_all(s.edition, n_editions),
    }
    r
}

fn focus_on(p: Pane, s: &Picker) -> (r: Picker)
    ensures
        r == focused(p, *s),
{
    let mut r = *s;
    r.focus = p;
    r
}

fn chosen_exec(xs: &Vec<String>, i: usize) -> (r: String)
    ensures
        r@ == chosen(names_view(xs@), i),
{
    if i == 0 || xs.len() == 0 {
        copy_string("all")
    } else if i <= xs.len() {
        assert(with_all(names_view(xs@))[i as int] == xs@[i - 1]@);
        copy_string(xs[i - 1].as_str())
    } else {
        assert(with_all(names_view(xs@))[xs@.len() as int] == xs@[xs@.len() - 1]@);
        copy_string(xs[xs.len() - 1].as_str())
    }
}

fn action_for(s: &Picker, slug: &str, langs: &Vec<String>, editions: &Vec<String>) -> (r: Action)
    ensures
        r@ == spec_action_for(*s, slug@, names_view(langs@), names_view(editions@)),
{
    let a = action_name(s.action % N_ACTIONS);
    let lang = chosen_exec(langs, s.lang);
    let ed = chosen_exec(editions, s.edition);
    let f = copy_string(format_name(s.format % N_FORMATS));
    let book = copy_string(slug);
    let ac = chars_of(a);
    if eq_str(&ac, "Release") || eq_str(&ac, "all") {
        Action::Release(BuildReq { book, lang, edition: ed, format: f })
    } else if eq_str(&ac, "Validate") {
        Action::Validate { book }
    } else if eq_str(&ac, "Covers") {
        Action::Covers { book, lang }
    } else if eq_str(&ac, "Audiobook") {
        Action::Audiobook { book, lang }
    } else {
        Action::Build(BuildReq { book, lang, edition: ed, format: f })
    }
}

/// Decide what one key press does to the picker (see [`spec_tui_step`]):
/// `n_books` is the number of books, `slug`, `langs` and `editions` those of
/// the selected book.
pub fn tui_step(
    p: &Picker,
    key: Key,
    n_books: usize,
    slug: &str,
    langs: &Vec<String>,
    editions: &Vec<String>,
) -> (r: Step)
    ensures
        r@ == spec_tui_step(*p, key, n_books as nat, slug@, names_view(langs@), names_view(editions@)),
{
    match key {
        Key::Esc => Step::Quit,
        Key::Left => Step::Stay(focus_on(prev_pane(p.focus), p)),
        Key::Right => Step::Stay(focus_on(next_pane(p.focus), p)),
        Key::Up => Step::Stay(move_up(p)),
        Key::Down => Step::Stay(move_down(p, n_books, langs.len(), editions.len())),
        Key::Enter => Step::Run(action_for(p, slug, langs, editions)),
        Key::Other => Step::Stay(*p),
        Key::Char(c) => {
            if c == 'q' {
                Step::Quit
            } else if c == 'k' {
                Step::Stay(move_up(p))
            } else if c == 'j' {
                Step::Stay(move_down(p, n_books, langs.len(), editions.len()))
            } else if c == 'b' {
                Step::Stay(focus_on(Pane::Books, p))
            } else if c == 'a' {
                Step::Stay(focus_on(Pane::Action, p))
            } else if c == 'f' {
                Step::Stay(focus_on(Pane::Format, p))
            } else if c == 'l' {
                Step::Stay(focus_on(Pane::Language, p))
            } else if c == 'e' {
                Step::Stay(focus_on(Pane::Edition, p))
            } else {
                Step::Stay(*p)
            }
        },
    }
}

/// ` --lang L` unless the language is `all`.
pub open spec fn lang_flag(lang: Seq<char>) -> Seq<char> {
    if lang != "all"@ {
        " --lang "@ + lang
    } else {
        Seq::<char>::empty()
    }
}

/// The command line a selection stands for, as the picker shows it and as it
/// is printed before it runs.
pub open spec fn spec_cmd_string(
    action: Seq<char>,
    slug: Seq<char>,
    lang: Seq<char>,
    edition: Seq<char>,
    format: Seq<char>,
) -> Seq<char> {
    if action == "Validate"@ {
        "bookmill validate "@ + slug + " --deep"@
    } else if action == "Covers"@ {
        "bookmill build cover "@ + slug + lang_flag(lang)
    } else if action == "Audiobook"@ {
        "bookmill audiobook "@ + slug + lang_flag(lang)
    } else if action == "Release"@ || action == "all"@ {
        "bookmill build "@ + slug + lang_flag(lang) + " ; build cover ; validate --deep"@
    } else {
        "bookmill build "@ + slug + (if format == "edition"@ {
            if edition != "all"@ {
                " --edition "@ + edition
            } else {
                Seq::<char>::empty()
            }
        } else {
            " --format "@ + format
        }) + lang_flag(lang)
    }
}

fn lang_flag_chars(lang: &str) -> (r: Vec<char>)
    ensures
        r@ == lang_flag(lang@),
{
    if eq_str(&chars_of(lang), "all") {
        Vec::new()
    } else {
        let mut v = chars_of(" --lang ");
        push_str(&mut v, lang);
        v
    }
}

/// The command line a selection stands for (see [`spec_cmd_string`]).
pub fn cmd_string(action: &str, slug: &str, lang: &str, edition: &str, format: &str) -> (r: String)
    ensures
        r@ == spec_cmd_string(action@, slug@, lang@, edition@, format@),
{
    let a = chars_of(action);
    let flag = lang_flag_chars(lang);
    if eq_str(&a, "Validate") {
        let mut v = chars_of("bookmill validate ");
        push_str(&mut v, slug);
        push_str(&mut v, " --deep");
        string_of(&v)
    } else if eq_str(&a, "Covers") {
        let mut v = chars_of("bookmill build cover ");
        push_str(&mut v, slug);
        crate::text::push_slice(&mut v, &flag);
        string_of(&v)
    } else if eq_str(&a, "Audiobook") {
        let mut v = chars_of("bookmill audiobook ");
        push_str(&mut v, slug);
        crate::text::push_slice(&mut v, &flag);
        string_of(&v)
    } else if eq_str(&a, "Release") || eq_str(&a, "all") {
        let mut v = chars_of("bookmill build ");
        push_str(&mut v, slug);
        crate::text::push_slice(&mut v, &flag);
        push_str(&mut v, " ; build cover ; validate --deep");
        string_of(&v)
    } else {
        let mut v = chars_of("bookmill build ");
        push_str(&mut v, slug);
        let mut mid: Vec<char> = Vec::new();
        if eq_str(&chars_of(format), "edition") {
            if !eq_str(&chars_of(edition), "all") {
                mid = chars_of(" --edition ");
                push_str(&mut mid, edition);
            }
        } else {
            mid = chars_of(" --format ");
            push_str(&mut mid, format);
        }
        crate::text::push_slice(&mut v, &mid);
        crate::text::push_slice(&mut v, &flag);
        string_of(&v)
    }
}

impl Action {
    /// The command line this action runs, printed just before it runs.
    pub fn command(&self) -> (r: String)
        ensures
            r@ == match self@ {
                ActionV::Build(b, l, e, f) => spec_cmd_string("Build"@, b, l, e, f),
                ActionV::Release(b, l, e, f) => spec_cmd_string("Release"@, b, l, e, f),
                ActionV::Validate(b) => spec_cmd_string("Validate"@, b, "all"@, "all"@, "edition"@),
                ActionV::Covers(b, l) => spec_cmd_string("Covers"@, b, l, "all"@, "edition"@),
                ActionV::Audiobook(b, l) => spec_cmd_string("Audiobook"@, b, l, "all"@, "edition"@),
            },
    {
        match self {
            Action::Build(r) => cmd_string("Build", r.book.as_str(), r.lang.as_str(), r.edition.as_str(), r.format.as_str()),
            Action::Release(r) => cmd_string("Release", r.book.as_str(), r.lang.as_str(), r.edition.as_str(), r.format.as_str()),
            Action::Validate { book } => cmd_string("Validate", book.as_str(), "all", "all", "edition"),
            Action::Covers { book, lang } => cmd_string("Covers", book.as_str(), lang.as_str(), "all", "edition"),
            Action::Audiobook { book, lang } => cmd_string("Audiobook", book.as_str(), lang.as_str(), "all", "edition"),
        }
    }
}

/// What a format builds, in words (empty for `edition`, whose outputs the
/// editions decide).
pub open spec fn spec_format_outputs(fmt: Seq<char>) -> Seq<char> {
    if fmt == "epub"@ {
        "EPUB (retail)"@
    } else if fmt == "pdf"@ {
        "PDF (retail, with cover)"@
    } else if fmt == "kdp"@ {
        "EPUB + PDF (KDP)"@
    } else if fmt == "print"@ {
        "PDF (KDP print interior)"@
    } else if fmt == "all"@ {
        "EPUB + PDF (retail + KDP)"@
    } else {
        ""@
    }
}

/// What a format builds, in words.
pub fn format_outputs(fmt: &str) -> (r: &'static str)
    ensures
        r@ == spec_format_outputs(fmt@),
{
    let f = chars_of(fmt);
    if eq_str(&f, "epub") {
        "EPUB (retail)"
    } else if eq_str(&f, "pdf") {
        "PDF (retail, with cover)"
    } else if eq_str(&f, "kdp") {
        "EPUB + PDF (KDP)"
    } else if eq_str(&f, "print") {
        "PDF (KDP print interior)"
    } else if eq_str(&f, "all") {
        "EPUB + PDF (retail + KDP)"
    } else {
        ""
    }
}

/// What an edition's target produces, in words (any other target is retail).
pub open spec fn spec_target_outputs(target: Seq<char>) -> Seq<char> {
    if target == "kdp-paperback"@ {
        "PDF — bleed print interior (KDP paperback)"@
    } else if target == "kdp-epub"@ {
        "EPUB — Kindle (lower-res images)"@
    } else if target == "kdp"@ {
        "EPUB + PDF (KDP)"@
    } else if target == "gumroad"@ {
        "EPUB + PDF — retail (direct digital)"@
    } else if target == "bubok"@ {
        "PDF — print interior (POD, per region)"@
    } else {
        "EPUB + PDF — retail"@
    }
}

/// What an edition's target produces, in words.
pub fn target_outputs(target: &str) -> (r: &'static str)
    ensures
        r@ == spec_target_outputs(target@),
{
    let t = chars_of(target);
    if eq_str(&t, "kdp-paperback") {
        "PDF — bleed print interior (KDP paperback)"
    } else if eq_str(&t, "kdp-epub") {
        "EPUB — Kindle (lower-res images)"
    } else if eq_str(&t, "kdp") {
        "EPUB + PDF (KDP)"
    } else if eq_str(&t, "gumroad") {
        "EPUB + PDF — retail (direct digital)"
    } else if eq_str(&t, "bubok") {
        "PDF — print interior (POD, per region)"
    } else {
        "EPUB + PDF — retail"
    }
}

/// Moving the focus right and then left (or left, then right) comes back to
/// the same list, and five moves either way go all the way round.
pub proof fn law_focus_round_trip(p: Pane)
    ensures
        pane_prev(pane_next(p)) == p,
        pane_next(pane_prev(p)) == p,
        pane_next(pane_next(pane_next(pane_next(pane_next(p))))) == p,
{
}

/// A cursor inside its list stays inside it whichever way it moves; moving
/// down then up from anywhere but the last item comes back.
pub proof fn law_cursor_stays_in_list(i: usize, len: nat)
    requires
        i < len,
        len <= usize::MAX,
    ensures
        cursor_up(i) < len,
        cursor_down(i, len) < len,
        i + 1 < len ==> cursor_up(cursor_down(i, len)) == i,
{
}

} // verus!
