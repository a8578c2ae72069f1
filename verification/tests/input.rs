use fps_client::input::{
    handle_ip_input, handle_name_input, is_valid_ip_char, is_valid_name_char, move_selection,
    next_status, Keystroke, Status, MAX_NAME_LENGTH, MIN_NAME_LENGTH,
};

#[test]
fn address_characters() {
    for c in "0123456789.:".chars() {
        assert!(is_valid_ip_char(c));
    }
    for c in "a/ ;-,".chars() {
        assert!(!is_valid_ip_char(c));
    }
}

#[test]
fn name_characters() {
    assert!(is_valid_name_char(' '));
    assert!(is_valid_name_char('~'));
    assert!(is_valid_name_char('A'));
    assert!(!is_valid_name_char('\u{1f}'));
    assert!(!is_valid_name_char('\u{7f}'));
    assert!(!is_valid_name_char('é'));
}

#[test]
fn address_keystrokes() {
    assert_eq!(handle_ip_input('\r'), Keystroke::Submit);
    assert_eq!(handle_ip_input('\u{3}'), Keystroke::Submit);
    assert_eq!(handle_ip_input('7'), Keystroke::Append);
    assert_eq!(handle_ip_input(':'), Keystroke::Append);
    assert_eq!(handle_ip_input('x'), Keystroke::Ignore);
    assert_eq!(handle_ip_input('\n'), Keystroke::Ignore);
}

#[test]
fn name_keystrokes() {
    assert_eq!(MAX_NAME_LENGTH, 16);
    assert_eq!(MIN_NAME_LENGTH, 3);
    assert_eq!(handle_name_input(2, '\r'), Keystroke::Ignore);
    assert_eq!(handle_name_input(3, '\r'), Keystroke::Submit);
    assert_eq!(handle_name_input(16, '\u{3}'), Keystroke::Submit);
    assert_eq!(handle_name_input(0, 'a'), Keystroke::Append);
    assert_eq!(handle_name_input(15, 'a'), Keystroke::Append);
    assert_eq!(handle_name_input(16, 'a'), Keystroke::Ignore);
    assert_eq!(handle_name_input(5, 'é'), Keystroke::Ignore);
}

#[test]
fn screens_follow_in_order() {
    let mut status = Status::EnterIP;
    let mut seen = vec![status];
    for _ in 0..6 {
        status = next_status(status);
        seen.push(status);
    }
    assert_eq!(
        seen,
        vec![
            Status::EnterIP,
            Status::EnterName,
            Status::SelectMap,
            Status::Init,
            Status::StartServerListener,
            Status::Run,
            Status::Run,
        ]
    );
}

#[test]
fn the_mark_stays_within_the_list() {
    assert_eq!(move_selection(0, 3, true, false), 1);
    assert_eq!(move_selection(1, 3, true, false), 2);
    assert_eq!(move_selection(2, 3, true, false), 2);
    assert_eq!(move_selection(2, 3, false, true), 1);
    assert_eq!(move_selection(0, 3, false, true), 0);
    assert_eq!(move_selection(1, 3, false, false), 1);
    assert_eq!(move_selection(1, 3, true, true), 1);
    assert_eq!(move_selection(2, 3, true, true), 1);
    assert_eq!(move_selection(0, 1, true, true), 0);
}
