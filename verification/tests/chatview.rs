use darkfi::chatview::{read_nick_colors, Message, MessageBuffer, PrivMessage};

fn msg(ts: u64, tag: u8) -> PrivMessage<u8> {
    PrivMessage::new(ts, [tag; 32], format!("nick{}", tag), format!("text{}", tag), tag)
}

fn timestamps(buf: &MessageBuffer<u8>) -> Vec<u64> {
    buf.messages().iter().map(|m| m.timestamp).collect()
}

#[test]
fn insert_into_empty_buffer() {
    let mut buf = MessageBuffer::new();
    assert_eq!(buf.oldest_timestamp(), None);
    assert_eq!(buf.latest_timestamp(), None);
    assert_eq!(buf.insert_privmsg(msg(100, 1)), Some(0));
    assert_eq!(timestamps(&buf), vec![100]);
}

#[test]
fn insert_keeps_most_recent_first() {
    let mut buf = MessageBuffer::new();
    buf.insert_privmsg(msg(100, 1));
    assert_eq!(buf.insert_privmsg(msg(300, 2)), Some(0));
    assert_eq!(buf.insert_privmsg(msg(200, 3)), Some(1));
    assert_eq!(buf.insert_privmsg(msg(200, 4)), Some(1));
    assert_eq!(buf.insert_privmsg(msg(100, 5)), Some(3));
    assert_eq!(timestamps(&buf), vec![300, 200, 200, 100, 100]);
    assert_eq!(buf.messages()[1].render, 4);
    assert_eq!(buf.latest_timestamp(), Some(300));
    assert_eq!(buf.oldest_timestamp(), Some(100));
}

#[test]
fn insert_older_than_loaded_is_dropped() {
    let mut buf = MessageBuffer::new();
    buf.insert_privmsg(msg(100, 1));
    assert_eq!(buf.insert_privmsg(msg(99, 2)), None);
    assert_eq!(timestamps(&buf), vec![100]);
}

#[test]
fn push_appends_at_old_end() {
    let mut buf = MessageBuffer::new();
    buf.push_privmsg(msg(300, 1));
    buf.push_privmsg(msg(200, 2));
    buf.push_privmsg(msg(250, 3));
    assert_eq!(timestamps(&buf), vec![300, 200, 250]);
    assert_eq!(buf.oldest_timestamp(), Some(250));
    assert_eq!(buf.latest_timestamp(), Some(300));
}

#[test]
fn select_marks_one_line() {
    let mut buf = MessageBuffer::new();
    buf.push_privmsg(msg(3, 1));
    buf.push_privmsg(msg(2, 2));
    assert!(!buf.messages()[0].is_selected);
    buf.select(1);
    assert!(buf.messages()[1].is_selected);
    assert!(!buf.messages()[0].is_selected);
    assert_eq!(buf.messages()[1].nick, "nick2");
}

#[test]
fn line_text_joins_nick_and_text() {
    let m = PrivMessage::new(1, [0; 32], "bob".to_string(), "hello there".to_string(), ());
    assert_eq!(m.line_text(), "bob hello there");
    let e = PrivMessage::new(1, [0; 32], String::new(), String::new(), ());
    assert_eq!(e.line_text(), " ");
}

#[test]
fn dates_separate_days() {
    let mut buf = MessageBuffer::new();
    for (i, ts) in [50u64, 40, 30, 20].iter().enumerate() {
        buf.push_privmsg(msg(*ts, i as u8));
    }
    let days = vec![5, 5, 4, 2];
    let items = buf.msgs_with_date(&days);
    assert_eq!(
        items,
        vec![
            Message::Priv(0),
            Message::Priv(1),
            Message::Date(5),
            Message::Priv(2),
            Message::Date(4),
            Message::Priv(3),
            Message::Date(2),
        ]
    );
    assert!(items[2].is_date());
    assert!(!items[0].is_date());
}

#[test]
fn no_dates_for_empty_buffer() {
    let buf: MessageBuffer<u8> = MessageBuffer::new();
    assert!(buf.msgs_with_date(&vec![]).is_empty());
}

#[test]
fn nick_colors_grouped_by_four() {
    let values: Vec<u8> = (0..9).collect();
    assert_eq!(read_nick_colors(&values, 0), vec![[4, 1, 2, 3], [8, 5, 6, 7]]);
    let values: Vec<f32> = vec![0.1, 0.2, 0.3, 0.4, 0.5, 0.6];
    assert_eq!(read_nick_colors(&values, 0.0), vec![[0.5, 0.2, 0.3, 0.4]]);
    let few: Vec<u8> = vec![1, 2, 3, 4];
    assert!(read_nick_colors(&few, 0).is_empty());
    let none: Vec<u8> = vec![];
    assert!(read_nick_colors(&none, 0).is_empty());
}
