use type_defender::menu::{game_key, GameKey, Key, Language, MenuKey, StatefulList};

#[test]
fn languages_in_menu_order() {
    let all = Language::all();
    assert_eq!(all, vec![Language::Afrikaans, Language::English, Language::Korean]);
    assert_eq!(Language::Korean.name(), "Korean");
    assert_eq!(Language::English.word_list_file(), "english_words.txt");
    assert_eq!(Language::Afrikaans.word_list_file(), "afrikaans_words.txt");
}

#[test]
fn list_selection_wraps_around() {
    let mut list = StatefulList::with_items(vec!["a", "b", "c"]);
    assert_eq!(list.selected, None);
    list.next();
    assert_eq!(list.selected, Some(0));
    list.next();
    assert_eq!(list.selected, Some(1));
    list.previous();
    assert_eq!(list.selected, Some(0));
    list.previous();
    assert_eq!(list.selected, Some(2));
    list.next();
    assert_eq!(list.selected, Some(0));
    let mut fresh = StatefulList::with_items(vec![1, 2]);
    fresh.previous();
    assert_eq!(fresh.selected, Some(0));
}

#[test]
fn menu_keys() {
    let mut list = StatefulList::with_items(vec!["Play again?", "Exit"]);
    assert_eq!(list.handle_key(Key::Enter), MenuKey::Stay);
    list.next();
    assert_eq!(list.handle_key(Key::Down), MenuKey::Stay);
    assert_eq!(list.selected, Some(1));
    assert_eq!(list.handle_key(Key::Enter), MenuKey::Choose(1));
    assert_eq!(list.handle_key(Key::Up), MenuKey::Stay);
    assert_eq!(list.selected, Some(0));
    assert_eq!(list.handle_key(Key::Char('x')), MenuKey::Stay);
    assert_eq!(list.selected, Some(0));
    assert_eq!(list.handle_key(Key::Esc), MenuKey::Quit);
}

#[test]
fn game_keys() {
    assert_eq!(game_key(Key::Enter), GameKey::ClearInput);
    assert_eq!(game_key(Key::Esc), GameKey::Quit);
    assert_eq!(game_key(Key::Char(' ')), GameKey::Ignore);
    assert_eq!(game_key(Key::Char('a')), GameKey::Edit);
    assert_eq!(game_key(Key::Other), GameKey::Edit);
    assert_eq!(game_key(Key::Up), GameKey::Edit);
}
