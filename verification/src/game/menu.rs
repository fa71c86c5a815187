//! Title screen and save-slot selection, as a state machine: each click, key
//! press or finished disk job moves the menu to its next state and tells the
//! application what to do. The disk work itself runs outside the library.

use vstd::prelude::*;

use crate::persistence::{is_slot_char, spec_valid_world_name, MAX_WORLD_NAME_LEN};
use crate::text::{trim, trimmed};

verus! {

/// Which menu page is shown.
#[derive(Clone, Copy, Debug, PartialEq, Eq, Structural)]
pub enum MenuPage {
    Title,
    Worlds,
    Create,
}

/// A text field on the create-world page.
#[derive(Clone, Copy, Debug, PartialEq, Eq, Structural)]
pub enum MenuField {
    Name,
    Seed,
}

/// A menu button.
#[derive(Clone, Debug)]
pub enum MenuAction {
    Play,
    New,
    Quit,
    Back,
    Select(String),
    Load,
    Create,
    Focus(MenuField),
}

/// A key press while the menu is shown.
#[derive(Clone, Debug)]
pub enum MenuKey {
    Tab,
    Backspace,
    /// Any other key, with the text it produced.
    Text(Vec<char>),
}

/// The seed a new world gets.
#[derive(Clone, Copy, Debug, PartialEq, Eq, Structural)]
pub enum SeedChoice {
    /// No seed was typed: derive one from the clock.
    Random,
    Given(u64),
}

/// What the application does next.
#[derive(Clone, Debug)]
pub enum MenuCommand {
    Nothing,
    /// Close the application.
    Quit,
    /// List the save directory in the background.
    ListWorlds,
    /// Create the world's directory in the background.
    CreateWorld(Vec<char>, SeedChoice),
    /// Open the named world.
    Load(String),
    /// Open the world just created, with its seed.
    Start(String, u64),
}

/// The outcome of a background disk job.
#[derive(Clone, Debug)]
pub enum JobOutcome {
    /// The names of the saved worlds, in display order.
    Worlds(Vec<String>),
    /// The world directory was created.
    Created(String, u64),
    Failed(String),
}

/// A message shown under the menu.
#[derive(Clone, Debug, PartialEq, Eq)]
pub enum MenuError {
    /// "Select a world first"
    NoWorldSelected,
    /// "Enter a valid world name"
    InvalidName,
    /// "Seed must be an unsigned 64-bit number"
    InvalidSeed,
    /// An error reported by the disk or by the last session.
    Failed(String),
}

/// Most bytes a text field holds.
pub const MAX_FIELD_BYTES: usize = 128;

/// First character whose UTF-8 encoding takes two bytes.
pub const TWO_BYTE_START: char = '\u{80}';

/// First character whose UTF-8 encoding takes three bytes.
pub const THREE_BYTE_START: char = '\u{800}';

/// First character whose UTF-8 encoding takes four bytes.
pub const FOUR_BYTE_START: char = '\u{10000}';

/// Last control character of the C0 block.
pub const LAST_C0_CONTROL: char = '\u{1f}';

/// The DEL control character, first of the second control range.
pub const DELETE: char = '\u{7f}';

/// Last control character of the C1 block.
pub const LAST_C1_CONTROL: char = '\u{9f}';

/// Bytes of the UTF-8 encoding of `c`.
pub open spec fn utf8_len(c: char) -> nat {
    if c < TWO_BYTE_START {
        1
    } else if c < THREE_BYTE_START {
        2
    } else if c < FOUR_BYTE_START {
        3
    } else {
        4
    }
}

/// Bytes of the UTF-8 encoding of `s`.
pub open spec fn byte_len(s: Seq<char>) -> nat
    decreases s.len(),
{
    if s.len() == 0 {
        0
    } else {
        byte_len(s.drop_last()) + utf8_len(s.last())
    }
}

/// A control character (general category Cc).
pub open spec fn is_control(c: char) -> bool {
    c <= LAST_C0_CONTROL || (DELETE <= c && c <= LAST_C1_CONTROL)
}

/// Typing `c` into a field holding `value` keeps it: printable, and the field
/// stays within its byte limit.
pub open spec fn accepts(value: Seq<char>, c: char) -> bool {
    !is_control(c) && byte_len(value) + utf8_len(c) <= MAX_FIELD_BYTES
}

/// The field after typing `text` into it, one character at a time.
pub open spec fn typed(value: Seq<char>, text: Seq<char>) -> Seq<char>
    decreases text.len(),
{
    if text.len() == 0 {
        value
    } else {
        typed(
            if accepts(value, text[0]) {
                value.push(text[0])
            } else {
                value
            },
            text.drop_first(),
        )
    }
}

/// The number written by the decimal digits `s`.
pub open spec fn digits_value(s: Seq<char>) -> int
    decreases s.len(),
{
    if s.len() == 0 {
        0
    } else {
        digits_value(s.drop_last()) * 10 + (s.last() as int - '0' as int)
    }
}

pub open spec fn all_digits(s: Seq<char>) -> bool {
    forall|i: int| 0 <= i < s.len() ==> '0' <= #[trigger] s[i] && s[i] <= '9'
}

/// How `u64::from_str` reads `s`: an optional `+`, then at least one decimal
/// digit, for a value that fits.
pub open spec fn spec_parse_u64(s: Seq<char>) -> Option<u64> {
    let body = if s.len() > 0 && s[0] == '+' {
        s.drop_first()
    } else {
        s
    };
    if body.len() > 0 && all_digits(body) && digits_value(body) <= u64::MAX {
        Some(digits_value(body) as u64)
    } else {
        None
    }
}

/// What the create button does with the typed seed: nothing typed means a
/// clock seed, otherwise the trimmed text must be a `u64`.
pub open spec fn spec_seed_choice(seed: Seq<char>) -> Option<SeedChoice> {
    if trim(seed).len() == 0 {
        Some(SeedChoice::Random)
    } else {
        match spec_parse_u64(trim(seed)) {
            Some(v) => Some(SeedChoice::Given(v)),
            None => None,
        }
    }
}

/// State of the title screen.
#[derive(Clone, Debug)]
pub struct MenuModel {
    page: MenuPage,
    name: Vec<char>,
    seed: Vec<char>,
    focus: Option<MenuField>,
    worlds: Vec<String>,
    selected: Option<String>,
    error: Option<MenuError>,
    busy: bool,
}

/// Abstract state of the title screen.
pub struct MenuView {
    pub page: MenuPage,
    pub name: Seq<char>,
    pub seed: Seq<char>,
    pub focus: Option<MenuField>,
    pub worlds: Seq<String>,
    pub selected: Option<String>,
    pub error: Option<MenuError>,
    /// A disk job is running; buttons and typing are ignored until it ends.
    pub busy: bool,
}

impl View for MenuModel {
    type V = MenuView;

    closed spec fn view(&self) -> MenuView {
        MenuView {
            page: self.page,
            name: self.name@,
            seed: self.seed@,
            focus: self.focus,
            worlds: self.worlds@,
            selected: self.selected,
            error: self.error,
            busy: self.busy,
        }
    }
}

impl MenuView {
    /// Both text fields are within their byte limit.
    pub open spec fn wf(self) -> bool {
        byte_len(self.name) <= MAX_FIELD_BYTES && byte_len(self.seed) <= MAX_FIELD_BYTES
    }

    /// The text field that has the keyboard, if any.
    pub open spec fn field(self, field: MenuField) -> Seq<char> {
        match field {
            MenuField::Name => self.name,
            MenuField::Seed => self.seed,
        }
    }

    pub open spec fn with_field(self, field: MenuField, value: Seq<char>) -> MenuView {
        match field {
            MenuField::Name => MenuView { name: value, ..self },
            MenuField::Seed => MenuView { seed: value, ..self },
        }
    }
}

proof fn lemma_byte_len_push(s: Seq<char>, c: char)
    ensures
        byte_len(s.push(c)) == byte_len(s) + utf8_len(c),
{
    assert(s.push(c).drop_last() =~= s);
}

proof fn lemma_typed_step(value: Seq<char>, text: Seq<char>)
    requires
        text.len() > 0,
    ensures
        typed(value, text) == typed(
            if accepts(value, text[0]) {
                value.push(text[0])
            } else {
                value
            },
            text.drop_first(),
        ),
{
}

fn char_utf8_len(c: char) -> (r: usize)
    ensures
        r == utf8_len(c),
{
    if c < TWO_BYTE_START {
        1
    } else if c < THREE_BYTE_START {
        2
    } else if c < FOUR_BYTE_START {
        3
    } else {
        4
    }
}

fn field_bytes(value: &Vec<char>) -> (r: usize)
    requires
        byte_len(value@) <= MAX_FIELD_BYTES,
    ensures
        r == byte_len(value@),
{
    let mut total: usize = 0;
    let mut i: usize = 0;
    while i < value.len()
        invariant
            i <= value@.len(),
            total == byte_len(value@.subrange(0, i as int)),
            byte_len(value@) <= MAX_FIELD_BYTES,
        decreases value@.len() - i,
    {
        proof {
            lemma_byte_len_prefix(value@, i as int + 1);
            assert(value@.subrange(0, i as int + 1).drop_last() =~= value@.subrange(0, i as int));
        }
        total = total + char_utf8_len(value[i]);
        i = i + 1;
    }
    assert(value@.subrange(0, value@.len() as int) =~= value@);
    total
}

proof fn lemma_byte_len_prefix(s: Seq<char>, k: int)
    requires
        0 <= k <= s.len(),
    ensures
        byte_len(s.subrange(0, k)) <= byte_len(s),
    decreases s.len() - k,
{
    if k < s.len() {
        lemma_byte_len_prefix(s, k + 1);
        assert(s.subrange(0, k + 1).drop_last() =~= s.subrange(0, k));
    } else {
        assert(s.subrange(0, k) =~= s);
    }
}

fn type_text(value: &mut Vec<char>, text: &Vec<char>)
    requires
        byte_len(old(value)@) <= MAX_FIELD_BYTES,
    ensures
        final(value)@ == typed(old(value)@, text@),
        byte_len(final(value)@) <= MAX_FIELD_BYTES,
{
    let mut bytes = field_bytes(value);
    let mut i: usize = 0;
    assert(text@.subrange(0, text@.len() as int) =~= text@);
    while i < text.len()
        invariant
            i <= text@.len(),
            bytes == byte_len(value@),
            bytes <= MAX_FIELD_BYTES,
            typed(value@, text@.subrange(i as int, text@.len() as int)) == typed(
                old(value)@,
                text@,
            ),
        decreases text@.len() - i,
    {
        let c = text[i];
        let rest = Ghost(text@.subrange(i as int, text@.len() as int));
        assert(rest@[0] == c);
        proof {
            lemma_typed_step(value@, rest@);
            assert(rest@.drop_first() =~= text@.subrange(i as int + 1, text@.len() as int));
        }
        let control = c <= LAST_C0_CONTROL || (DELETE <= c && c <= LAST_C1_CONTROL);
        let width = char_utf8_len(c);
        if !control && bytes + width <= MAX_FIELD_BYTES {
            proof {
                lemma_byte_len_push(value@, c);
            }
            value.push(c);
            bytes = bytes + width;
        }
        i = i + 1;
    }
    assert(text@.subrange(text@.len() as int, text@.len() as int) =~= Seq::<char>::empty());
}

/// Whether `name` may name a save slot (see `persistence::valid_world_name`).
pub fn valid_slot_name(name: &Vec<char>) -> (r: bool)
    ensures
        r == spec_valid_world_name(name@),
{
    if name.len() == 0 || name.len() > MAX_WORLD_NAME_LEN {
        return false;
    }
    let mut i: usize = 0;
    while i < name.len()
        invariant
            i <= name@.len(),
            forall|j: int| 0 <= j < i ==> is_slot_char(#[trigger] name@[j]),
        decreases name@.len() - i,
    {
        let c = name[i];
        if !((c >= 'a' && c <= 'z') || (c >= 'A' && c <= 'Z') || (c >= '0' && c <= '9') || c == '-'
            || c == '_') {
            return false;
        }
        i = i + 1;
    }
    true
}

proof fn lemma_digits_grow(s: Seq<char>, k: int)
    requires
        0 <= k <= s.len(),
        all_digits(s),
    ensures
        digits_value(s.subrange(0, k)) <= digits_value(s),
        0 <= digits_value(s.subrange(0, k)),
    decreases s.len() - k,
{
    if k < s.len() {
        lemma_digits_grow(s, k + 1);
        let p = s.subrange(0, k + 1);
        assert(p.drop_last() =~= s.subrange(0, k));
        assert(p.last() == s[k]);
    } else {
        assert(s.subrange(0, k) =~= s);
        lemma_digits_nonnegative(s);
    }
}

proof fn lemma_digits_nonnegative(s: Seq<char>)
    requires
        all_digits(s),
    ensures
        0 <= digits_value(s),
    decreases s.len(),
{
    if s.len() > 0 {
        assert(all_digits(s.drop_last())) by {
            assert forall|i: int| 0 <= i < s.drop_last().len() implies '0' <= #[trigger] s.drop_last()[i]
                && s.drop_last()[i] <= '9' by {
                assert(s.drop_last()[i] == s[i]);
            }
        }
        lemma_digits_nonnegative(s.drop_last());
        assert(s.last() == s[s.len() - 1]);
    }
}

/// Reads a `u64` the way `str::parse::<u64>` does.
pub fn parse_u64(s: &Vec<char>) -> (r: Option<u64>)
    ensures
        r == spec_parse_u64(s@),
{
    let start: usize = if s.len() > 0 && s[0] == '+' {
        1
    } else {
        0
    };
    let ghost body = if s@.len() > 0 && s@[0] == '+' {
        s@.drop_first()
    } else {
        s@
    };
    assert(body =~= s@.subrange(start as int, s@.len() as int));
    if start >= s.len() {
        return None;
    }
    let mut value: u64 = 0;
    let mut k: usize = start;
    while k < s.len()
        invariant
            start <= k <= s@.len(),
            start < s@.len(),
            body == (if s@.len() > 0 && s@[0] == '+' {
                s@.drop_first()
            } else {
                s@
            }),
            body == s@.subrange(start as int, s@.len() as int),
            all_digits(body.subrange(0, k - start)),
            value == digits_value(body.subrange(0, k - start)),
        decreases s@.len() - k,
    {
        let c = s[k];
        let ghost prefix = body.subrange(0, k - start + 1);
        assert(prefix.drop_last() =~= body.subrange(0, k - start));
        assert(prefix.last() == c);
        if !(c >= '0' && c <= '9') {
            assert(!all_digits(body)) by {
                assert(body[k - start] == c);
            }
            return None;
        }
        let code = c as u32;
        assert(code == c as int);
        let digit = (code - '0' as u32) as u64;
        assert(all_digits(prefix)) by {
            assert forall|i: int| 0 <= i < prefix.len() implies '0' <= #[trigger] prefix[i] && prefix[i]
                <= '9' by {
                if i < prefix.len() - 1 {
                    assert(prefix[i] == body.subrange(0, k - start)[i]);
                }
            }
        }
        match value.checked_mul(10) {
            Some(tens) => match tens.checked_add(digit) {
                Some(next) => {
                    value = next;
                },
                None => {
                    proof {
                        lemma_overflow_persists(body, k - start + 1);
                    }
                    return None;
                },
            },
            None => {
                proof {
                    lemma_digits_nonnegative(body.subrange(0, k - start));
                    lemma_overflow_persists(body, k - start + 1);
                }
                return None;
            },
        }
        k = k + 1;
    }
    assert(body.subrange(0, k - start) =~= body);
    Some(value)
}

proof fn lemma_overflow_persists(body: Seq<char>, k: int)
    requires
        0 < k <= body.len(),
        all_digits(body.subrange(0, k)),
        digits_value(body.subrange(0, k)) > u64::MAX,
    ensures
        !(all_digits(body) && digits_value(body) <= u64::MAX),
{
    if all_digits(body) {
        lemma_digits_grow(body, k);
    }
}

fn seed_choice(seed: &Vec<char>) -> (r: Option<SeedChoice>)
    ensures
        r == spec_seed_choice(seed@),
{
    let text = trimmed(seed);
    if text.len() == 0 {
        return Some(SeedChoice::Random);
    }
    match parse_u64(&text) {
        Some(v) => Some(SeedChoice::Given(v)),
        None => None,
    }
}

impl MenuModel {
    /// The menu as the application starts: title page, empty fields.
    pub fn new() -> (r: Self)
        ensures
            r@.wf(),
            r@.page == MenuPage::Title,
            r@.name.len() == 0,
            r@.seed.len() == 0,
            r@.focus is None,
            r@.worlds.len() == 0,
            r@.selected is None,
            r@.error is None,
            !r@.busy,
    {
        MenuModel {
            page: MenuPage::Title,
            name: Vec::new(),
            seed: Vec::new(),
            focus: None,
            worlds: Vec::new(),
            selected: None,
            error: None,
            busy: false,
        }
    }

    pub fn page(&self) -> (r: MenuPage)
        ensures
            r == self@.page,
    {
        self.page
    }

    pub fn name(&self) -> (r: &Vec<char>)
        ensures
            r@ == self@.name,
    {
        &self.name
    }

    pub fn seed(&self) -> (r: &Vec<char>)
        ensures
            r@ == self@.seed,
    {
        &self.seed
    }

    pub fn focus(&self) -> (r: Option<MenuField>)
        ensures
            r == self@.focus,
    {
        self.focus
    }

    pub fn worlds(&self) -> (r: &Vec<String>)
        ensures
            r@ == self@.worlds,
    {
        &self.worlds
    }

    pub fn selected(&self) -> (r: &Option<String>)
        ensures
            *r == self@.selected,
    {
        &self.selected
    }

    pub fn error(&self) -> (r: &Option<MenuError>)
        ensures
            *r == self@.error,
    {
        &self.error
    }

    pub fn is_busy(&self) -> (r: bool)
        ensures
            r == self@.busy,
    {
        self.busy
    }

    /// Entering the menu shows the title page, drops the keyboard focus and
    /// shows the error the last session ended with, if any.
    pub fn enter(&mut self, last_error: Option<String>)
        requires
            old(self)@.wf(),
        ensures
            final(self)@ == (MenuView {
                page: MenuPage::Title,
                focus: None,
                error: match last_error {
                    Some(e) => Some(MenuError::Failed(e)),
                    None => None,
                },
                ..old(self)@
            }),
            final(self)@.wf(),
    {
        self.page = MenuPage::Title;
        self.focus = None;
        self.error = match last_error {
            Some(e) => Some(MenuError::Failed(e)),
            None => None,
        };
    }

    /// Handles a button press. While a disk job runs every press is ignored;
    /// otherwise the shown error is cleared first.
    pub fn click(&mut self, action: MenuAction) -> (r: MenuCommand)
        requires
            old(self)@.wf(),
        ensures
            final(self)@.wf(),
            old(self)@.busy ==> final(self)@ == old(self)@ && r is Nothing,
            !old(self)@.busy ==> {
                let cleared = MenuView { error: None, ..old(self)@ };
                match action {
                    MenuAction::Quit => r is Quit && final(self)@ == cleared,
                    MenuAction::Back => r is Nothing && final(self)@ == (MenuView {
                        page: MenuPage::Title,
                        focus: None,
                        ..cleared
                    }),
                    MenuAction::New => r is Nothing && final(self)@ == (MenuView {
                        page: MenuPage::Create,
                        focus: Some(MenuField::Name),
                        ..cleared
                    }),
                    MenuAction::Focus(field) => r is Nothing && final(self)@ == (MenuView {
                        focus: Some(field),
                        ..cleared
                    }),
                    MenuAction::Select(name) => r is Nothing && final(self)@ == (MenuView {
                        selected: Some(name),
                        ..cleared
                    }),
                    MenuAction::Play => r is ListWorlds && final(self)@ == (MenuView {
                        page: MenuPage::Worlds,
                        busy: true,
                        ..cleared
                    }),
                    MenuAction::Load => match old(self)@.selected {
                        Some(name) => r == MenuCommand::Load(name) && final(self)@ == cleared,
                        None => r is Nothing && final(self)@ == (MenuView {
                            error: Some(MenuError::NoWorldSelected),
                            ..cleared
                        }),
                    },
                    MenuAction::Create => if !spec_valid_world_name(trim(old(self)@.name)) {
                        r is Nothing && final(self)@ == (MenuView {
                            error: Some(MenuError::InvalidName),
                            ..cleared
                        })
                    } else {
                        match spec_seed_choice(old(self)@.seed) {
                            None => r is Nothing && final(self)@ == (MenuView {
                                error: Some(MenuError::InvalidSeed),
                                ..cleared
                            }),
                            Some(choice) => (r matches MenuCommand::CreateWorld(name, c) && name@
                                == trim(old(self)@.name) && c == choice) && final(self)@ == (
                            MenuView { busy: true, ..cleared }),
                        }
                    },
                }
            },
    {
        if self.busy {
            return MenuCommand::Nothing;
        }
        self.error = None;
        match action {
            MenuAction::Quit => MenuCommand::Quit,
            MenuAction::Back => {
                self.page = MenuPage::Title;
                self.focus = None;
                MenuCommand::Nothing
            },
            MenuAction::New => {
                self.page = MenuPage::Create;
                self.focus = Some(MenuField::Name);
                MenuCommand::Nothing
            },
            MenuAction::Focus(field) => {
                self.focus = Some(field);
                MenuCommand::Nothing
            },
            MenuAction::Select(name) => {
                self.selected = Some(name);
                MenuCommand::Nothing
            },
            MenuAction::Play => {
                self.page = MenuPage::Worlds;
                self.busy = true;
                MenuCommand::ListWorlds
            },
            MenuAction::Load => match &self.selected {
                Some(name) => MenuCommand::Load(name.clone()),
                None => {
                    self.error = Some(MenuError::NoWorldSelected);
                    MenuCommand::Nothing
                },
            },
            MenuAction::Create => {
                let name = trimmed(&self.name);
                if !valid_slot_name(&name) {
                    self.error = Some(MenuError::InvalidName);
                    return MenuCommand::Nothing;
                }
                match seed_choice(&self.seed) {
                    None => {
                        self.error = Some(MenuError::InvalidSeed);
                        MenuCommand::Nothing
                    },
                    Some(choice) => {
                        self.busy = true;
                        MenuCommand::CreateWorld(name, choice)
                    },
                }
            },
        }
    }

    /// Handles a key press. Typing only reaches the create page while no disk
    /// job runs: Tab moves the focus between the two fields, Backspace removes
    /// the last character of the focused field, and other keys type their
    /// printable characters while the field stays within 128 bytes.
    pub fn key(&mut self, key: MenuKey)
        requires
            old(self)@.wf(),
        ensures
            final(self)@.wf(),
            (old(self)@.page != MenuPage::Create || old(self)@.busy) ==> final(self)@ == old(self)@,
            (old(self)@.page == MenuPage::Create && !old(self)@.busy) ==> match key {
                MenuKey::Tab => final(self)@ == (MenuView {
                    focus: Some(
                        if old(self)@.focus == Some(MenuField::Name) {
                            MenuField::Seed
                        } else {
                            MenuField::Name
                        },
                    ),
                    ..old(self)@
                }),
                MenuKey::Backspace => match old(self)@.focus {
                    None => final(self)@ == old(self)@,
                    Some(field) => final(self)@ == old(self)@.with_field(
                        field,
                        if old(self)@.field(field).len() == 0 {
                            old(self)@.field(field)
                        } else {
                            old(self)@.field(field).drop_last()
                        },
                    ),
                },
                MenuKey::Text(text) => match old(self)@.focus {
                    None => final(self)@ == old(self)@,
                    Some(field) => final(self)@ == old(self)@.with_field(
                        field,
                        typed(old(self)@.field(field), text@),
                    ),
                },
            },
    {
        if self.page != MenuPage::Create || self.busy {
            return;
        }
        match key {
            MenuKey::Tab => {
                self.focus = Some(
                    if self.focus == Some(MenuField::Name) {
                        MenuField::Seed
                    } else {
                        MenuField::Name
                    },
                );
            },
            MenuKey::Backspace => match self.focus {
                Some(MenuField::Name) => {
                    proof {
                        if self.name@.len() > 0 {
                            assert(byte_len(self.name@) == byte_len(self.name@.drop_last())
                                + utf8_len(self.name@.last()));
                        }
                    }
                    self.name.pop();
                },
                Some(MenuField::Seed) => {
                    proof {
                        if self.seed@.len() > 0 {
                            assert(byte_len(self.seed@) == byte_len(self.seed@.drop_last())
                                + utf8_len(self.seed@.last()));
                        }
                    }
                    self.seed.pop();
                },
                None => {},
            },
            MenuKey::Text(text) => match self.focus {
                Some(MenuField::Name) => type_text(&mut self.name, &text),
                Some(MenuField::Seed) => type_text(&mut self.seed, &text),
                None => {},
            },
        }
    }

    /// Takes the outcome of the running disk job: a listing replaces the
    /// world list and clears the selection, a created world is opened, and a
    /// failure is shown.
    pub fn job_finished(&mut self, outcome: JobOutcome) -> (r: MenuCommand)
        requires
            old(self)@.wf(),
        ensures
            final(self)@.wf(),
            match outcome {
                JobOutcome::Worlds(worlds) => r is Nothing && final(self)@ == (MenuView {
                    busy: false,
                    worlds: worlds@,
                    selected: None,
                    ..old(self)@
                }),
                JobOutcome::Created(name, seed) => r == MenuCommand::Start(name, seed)
                    && final(self)@ == (MenuView { busy: false, ..old(self)@ }),
                JobOutcome::Failed(e) => r is Nothing && final(self)@ == (MenuView {
                    busy: false,
                    error: Some(MenuError::Failed(e)),
                    ..old(self)@
                }),
            },
    {
        self.busy = false;
        match outcome {
            JobOutcome::Worlds(worlds) => {
                self.worlds = worlds;
                self.selected = None;
                MenuCommand::Nothing
            },
            JobOutcome::Created(name, seed) => MenuCommand::Start(name, seed),
            JobOutcome::Failed(e) => {
                self.error = Some(MenuError::Failed(e));
                MenuCommand::Nothing
            },
        }
    }
}

} // verus!
