use birthday_bot::date::Date;
use birthday_bot::models::{Birthday, GuildSettings, NewBirthday, NewGuildSettings};
use birthday_bot::store::{BirthdayStore, StoreError};

fn d(y: i32, m: u32, day: u32) -> Date {
    Date::from_ymd_opt(y, m, day).unwrap()
}

#[test]
fn set_get_and_delete_a_birthday() {
    let mut store = BirthdayStore::new();
    assert_eq!(store.get_birthday(1, 9), None);
    assert_eq!(store.insert_birthday(1, 9, d(2001, 3, 5)), Ok(()));
    let b = store.get_birthday(1, 9).unwrap();
    assert_eq!(b.user_id, 1);
    assert_eq!(b.guild_id, 9);
    assert_eq!(b.date, d(2001, 3, 5));
    assert!(!b.announced_this_year);
    assert_eq!(store.get_birthday(1, 10), None);
    store.delete_birthday(&b);
    assert_eq!(store.get_birthday(1, 9), None);
}

#[test]
fn one_row_per_user_and_guild() {
    let mut store = BirthdayStore::new();
    store.insert_birthday(1, 9, d(2001, 3, 5)).unwrap();
    let first = store.get_birthday(1, 9).unwrap();
    store.insert_birthday(1, 9, d(2002, 7, 8)).unwrap();
    store.insert_birthday(1, 10, d(2003, 1, 2)).unwrap();
    let again = store.get_birthday(1, 9).unwrap();
    assert_eq!(again.id, first.id);
    assert_eq!(again.date, d(2002, 7, 8));
    assert_eq!(store.list_birthdays(9).len(), 1);
    assert_eq!(store.list_birthdays(10).len(), 1);
    assert_ne!(store.get_birthday(1, 10).unwrap().id, first.id);
}

#[test]
fn setting_again_rearms_an_announced_birthday() {
    let mut store = BirthdayStore::new();
    store.insert_birthday(1, 9, d(2001, 3, 5)).unwrap();
    let id = store.get_birthday(1, 9).unwrap().id;
    store.update_announced_value(&vec![id]);
    assert!(store.get_birthday(1, 9).unwrap().announced_this_year);
    store.insert_birthday(1, 9, d(2001, 3, 5)).unwrap();
    assert!(!store.get_birthday(1, 9).unwrap().announced_this_year);
}

#[test]
fn deleting_a_missing_birthday_changes_nothing() {
    let mut store = BirthdayStore::new();
    store.insert_birthday(1, 9, d(2001, 3, 5)).unwrap();
    let ghost_row = Birthday { id: 99, user_id: 2, guild_id: 9, date: d(2001, 3, 5), announced_this_year: false };
    store.delete_birthday(&ghost_row);
    assert_eq!(store.list_birthdays(9).len(), 1);
}

#[test]
fn list_keeps_only_the_guild() {
    let mut store = BirthdayStore::new();
    store.insert_birthday(1, 9, d(2001, 3, 5)).unwrap();
    store.insert_birthday(2, 8, d(2001, 3, 5)).unwrap();
    store.insert_birthday(3, 9, d(1999, 1, 1)).unwrap();
    let users: Vec<i64> = store.list_birthdays(9).iter().map(|b| b.user_id).collect();
    assert_eq!(users, vec![1, 3]);
    assert!(store.list_birthdays(7).is_empty());
}

#[test]
fn todays_unannounced_rows() {
    let mut store = BirthdayStore::new();
    store.insert_birthday(1, 9, d(2001, 3, 5)).unwrap();
    store.insert_birthday(2, 9, d(1990, 3, 5)).unwrap();
    store.insert_birthday(3, 9, d(1990, 3, 6)).unwrap();
    let id2 = store.get_birthday(2, 9).unwrap().id;
    store.update_announced_value(&vec![id2]);
    let due: Vec<i64> = store.get_birthdays_today(&d(2024, 3, 5)).iter().map(|b| b.user_id).collect();
    assert_eq!(due, vec![1]);
}

#[test]
fn marking_twice_is_marking_once() {
    let mut once = BirthdayStore::new();
    let mut twice = BirthdayStore::new();
    for s in [&mut once, &mut twice] {
        s.insert_birthday(1, 9, d(2001, 3, 5)).unwrap();
        s.insert_birthday(2, 9, d(2001, 4, 5)).unwrap();
    }
    let ids = vec![once.get_birthday(1, 9).unwrap().id];
    once.update_announced_value(&ids);
    twice.update_announced_value(&ids);
    twice.update_announced_value(&ids);
    assert_eq!(once.list_birthdays(9), twice.list_birthdays(9));
    assert!(once.get_birthday(1, 9).unwrap().announced_this_year);
    assert!(!once.get_birthday(2, 9).unwrap().announced_this_year);
    let before = once.list_birthdays(9);
    once.update_announced_value(&Vec::new());
    assert_eq!(once.list_birthdays(9), before);
}

#[test]
fn stale_flags_are_found_and_cleared() {
    let mut store = BirthdayStore::new();
    store.insert_birthday(1, 9, d(2023, 3, 5)).unwrap();
    store.insert_birthday(2, 9, d(2000, 3, 6)).unwrap();
    let ids = vec![store.get_birthday(1, 9).unwrap().id, store.get_birthday(2, 9).unwrap().id];
    store.update_announced_value(&ids);
    let stale: Vec<i64> = store.find_stale_announced_flags(&d(2024, 3, 6)).iter().map(|b| b.user_id).collect();
    assert_eq!(stale, vec![1]);
    store.reset_announced_flags(&d(2024, 3, 6));
    assert!(!store.get_birthday(1, 9).unwrap().announced_this_year);
    assert!(store.get_birthday(2, 9).unwrap().announced_this_year);
}

#[test]
fn announcement_channel_per_guild() {
    let mut store = BirthdayStore::new();
    assert_eq!(store.get_announcement_channel(9), None);
    assert_eq!(store.insert_guild_settings(9, Some(100)), Ok(()));
    assert_eq!(store.insert_guild_settings(8, None), Ok(()));
    assert_eq!(store.get_announcement_channel(9), Some(100));
    assert_eq!(store.get_announcement_channel(8), None);
    store.insert_guild_settings(9, Some(200)).unwrap();
    assert_eq!(store.get_announcement_channel(9), Some(200));
}

#[test]
fn new_rows_take_an_identity() {
    let b = NewBirthday { user_id: 1, guild_id: 9, date: d(2001, 3, 5), announced_this_year: false }.with_id(4);
    assert_eq!(b, Birthday { id: 4, user_id: 1, guild_id: 9, date: d(2001, 3, 5), announced_this_year: false });
    let g = NewGuildSettings { guild_id: 9, announcements_channel_id: Some(5) }.with_id(2);
    assert_eq!(g, GuildSettings { id: 2, guild_id: 9, announcements_channel_id: Some(5) });
}
