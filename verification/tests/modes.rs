use seldir::mode::{transition, Command, Key, ModeState};

#[test]
fn g_waits_for_a_second_key() {
    assert_eq!(transition(ModeState::Normal, Key::Char('g')), (ModeState::PendingGoTo, Command::Nothing));
}

#[test]
fn g_g_selects_the_first_entry() {
    assert_eq!(transition(ModeState::PendingGoTo, Key::Char('g')), (ModeState::Normal, Command::SelectFirst));
}

#[test]
fn g_then_capital_g_or_e_selects_the_last_entry() {
    assert_eq!(transition(ModeState::PendingGoTo, Key::Char('G')), (ModeState::Normal, Command::SelectLast));
    assert_eq!(transition(ModeState::PendingGoTo, Key::Char('e')), (ModeState::Normal, Command::SelectLast));
}

#[test]
fn any_other_key_cancels_the_wait() {
    for key in [Key::Char('j'), Key::Char('x'), Key::Enter, Key::Escape, Key::Left, Key::Right, Key::Ctrl('h'), Key::Other, Key::Char('/')] {
        assert_eq!(transition(ModeState::PendingGoTo, key), (ModeState::Normal, Command::Nothing));
    }
}

#[test]
fn slash_opens_the_search_and_escape_or_enter_closes_it() {
    assert_eq!(transition(ModeState::Normal, Key::Char('/')), (ModeState::SearchActive, Command::Nothing));
    assert_eq!(transition(ModeState::SearchActive, Key::Escape), (ModeState::Normal, Command::Nothing));
    assert_eq!(transition(ModeState::SearchActive, Key::Enter), (ModeState::Normal, Command::Nothing));
}

#[test]
fn keys_in_search_mode_go_to_the_field() {
    for key in [Key::Char('g'), Key::Char('j'), Key::Char('/'), Key::Char('q'), Key::Left, Key::Ctrl('h'), Key::Other] {
        assert_eq!(transition(ModeState::SearchActive, key), (ModeState::SearchActive, Command::EditQuery));
    }
}

#[test]
fn normal_mode_bindings() {
    let normal = ModeState::Normal;
    assert_eq!(transition(normal, Key::Char('j')), (normal, Command::MoveDown));
    assert_eq!(transition(normal, Key::Char('k')), (normal, Command::MoveUp));
    assert_eq!(transition(normal, Key::Char('l')), (normal, Command::EnterChild));
    assert_eq!(transition(normal, Key::Right), (normal, Command::EnterChild));
    assert_eq!(transition(normal, Key::Char('h')), (normal, Command::GoToParent));
    assert_eq!(transition(normal, Key::Left), (normal, Command::GoToParent));
    assert_eq!(transition(normal, Key::Ctrl('h')), (normal, Command::ToggleHidden));
    assert_eq!(transition(normal, Key::Char('q')), (normal, Command::Exit));
    assert_eq!(transition(normal, Key::Enter), (normal, Command::Exit));
    assert_eq!(transition(normal, Key::Escape), (normal, Command::Quit));
    assert_eq!(transition(normal, Key::Char('e')), (normal, Command::Nothing));
    assert_eq!(transition(normal, Key::Char('G')), (normal, Command::Nothing));
    assert_eq!(transition(normal, Key::Ctrl('g')), (normal, Command::Nothing));
    assert_eq!(transition(normal, Key::Other), (normal, Command::Nothing));
}
