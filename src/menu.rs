//! The choices offered around a game: the word list's language, a list with
//! one selected entry that the arrow keys move through, and what each key
//! does.

use vstd::prelude::*;

verus! {

/// The languages that have a word list.
#[derive(Clone, Copy, Debug, PartialEq, Eq)]
pub enum Language {
    Afrikaans,
    English,
    Korean,
}

impl Language {
    /// Every language, in the order the menu lists them.
    pub fn all() -> (r: Vec<Language>)
        ensures
            r@ == seq![Language::Afrikaans, Language::English, Language::Korean],
    {
        vec![Language::Afrikaans, Language::English, Language::Korean]
    }

    /// The name shown in the menu.
    pub fn name(&self) -> &'static str {
        match self {
            Language::Afrikaans => "Afrikaans",
            Language::English => "English",
            Language::Korean => "Korean",
        }
    }

    /// The resource that holds this language's word list.
    pub fn word_list_file(&self) -> &'static str {
        match self {
            Language::Afrikaans => "afrikaans_words.txt",
            Language::English => "english_words.txt",
            Language::Korean => "korean_words.txt",
        }
    }
}

/// A key the player pressed.
#[derive(Clone, Copy, Debug, PartialEq, Eq)]
pub enum Key {
    Enter,
    Esc,
    Up,
    Down,
    Char(char),
    /// Any other key: it may still edit the input text.
    Other,
}

/// What a key does during a game.
#[derive(Clone, Copy, Debug, PartialEq, Eq)]
pub enum GameKey {
    /// Clear the input text.
    ClearInput,
    /// Leave the game.
    Quit,
    /// Nothing: a space never reaches the input.
    Ignore,
    /// Hand the key to the input text.
    Edit,
}

/// What a key does in a menu.
#[derive(Clone, Copy, Debug, PartialEq, Eq)]
pub enum MenuKey {
    /// Leave the game.
    Quit,
    /// The selection moved, or nothing happened.
    Stay,
    /// The entry at this index was chosen.
    Choose(usize),
}

/// What a key does during a game.
pub fn game_key(key: Key) -> (r: GameKey)
    ensures
        r == match key {
            Key::Enter => GameKey::ClearInput,
            Key::Esc => GameKey::Quit,
            Key::Char(c) => if c == ' ' {
                GameKey::Ignore
            } else {
                GameKey::Edit
            },
            _ => GameKey::Edit,
        },
{
    match key {
        Key::Enter => GameKey::ClearInput,
        Key::Esc => GameKey::Quit,
        Key::Char(c) => if c == ' ' {
            GameKey::Ignore
        } else {
            GameKey::Edit
        },
        _ => GameKey::Edit,
    }
}

/// The selection after `next` on a list of `len` entries.
pub open spec fn next_spec(selected: Option<usize>, len: nat) -> usize {
    match selected {
        Some(i) => if i + 1 >= len {
            0
        } else {
            (i + 1) as usize
        },
        None => 0,
    }
}

/// The selection after `previous` on a list of `len` entries.
pub open spec fn previous_spec(selected: Option<usize>, len: nat) -> usize {
    match selected {
        Some(i) => if i == 0 {
            (len - 1) as usize
        } else {
            (i - 1) as usize
        },
        None => 0,
    }
}

/// A list of entries with at most one selected; moving past either end
/// wraps around.
pub struct StatefulList<T> {
    pub selected: Option<usize>,
    pub items: Vec<T>,
}

impl<T> StatefulList<T> {
    /// A list of the given entries, none selected.
    pub fn with_items(items: Vec<T>) -> (r: StatefulList<T>)
        ensures
            r.selected is None,
            r.items@ == items@,
    {
        StatefulList { selected: None, items }
    }

    /// Selects the entry after the selected one, the first after the last,
    /// or the first when none is selected.
    pub fn next(&mut self)
        requires
            old(self).selected is Some ==> old(self).items@.len() > 0,
        ensures
            final(self).selected == Some(next_spec(old(self).selected, old(self).items@.len())),
            final(self).items@ == old(self).items@,
    {
        let i = match self.selected {
            Some(i) => if i >= self.items.len() - 1 {
                0
            } else {
                i + 1
            },
            None => 0,
        };
        self.selected = Some(i);
    }

    /// Selects the entry before the selected one, the last before the
    /// first, or the first when none is selected.
    pub fn previous(&mut self)
        requires
            old(self).selected is Some ==> old(self).items@.len() > 0,
        ensures
            final(self).selected == Some(previous_spec(old(self).selected, old(self).items@.len())),
            final(self).items@ == old(self).items@,
    {
        let i = match self.selected {
            Some(i) => if i == 0 {
                self.items.len() - 1
            } else {
                i - 1
            },
            None => 0,
        };
        self.selected = Some(i);
    }

    /// What a key does in the menu: the arrows move the selection, Enter
    /// chooses the selected entry, Esc leaves.
    pub fn handle_key(&mut self, key: Key) -> (r: MenuKey)
        requires
            old(self).selected is Some ==> old(self).items@.len() > 0,
        ensures
            final(self).items@ == old(self).items@,
            key == Key::Esc ==> r == MenuKey::Quit && final(self).selected == old(self).selected,
            key == Key::Down ==> r == MenuKey::Stay && final(self).selected == Some(
                next_spec(old(self).selected, old(self).items@.len()),
            ),
            key == Key::Up ==> r == MenuKey::Stay && final(self).selected == Some(
                previous_spec(old(self).selected, old(self).items@.len()),
            ),
            key == Key::Enter ==> final(self).selected == old(self).selected && r == match old(
                self,
            ).selected {
                Some(i) => MenuKey::Choose(i),
                None => MenuKey::Stay,
            },
            key != Key::Esc && key != Key::Down && key != Key::Up && key != Key::Enter ==> r
                == MenuKey::Stay && final(self).selected == old(self).selected,
    {
        match key {
            Key::Esc => MenuKey::Quit,
            Key::Down => {
                self.next();
                MenuKey::Stay
            },
            Key::Up => {
                self.previous();
                MenuKey::Stay
            },
            Key::Enter => match self.selected {
                Some(i) => MenuKey::Choose(i),
                None => MenuKey::Stay,
            },
            _ => MenuKey::Stay,
        }
    }
}

} // verus!
