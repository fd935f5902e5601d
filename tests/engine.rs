use birthday_bot::announce::{
    finish_birthday_announcements, group_birthdays_by_guild, handle_birthday_announcements,
};
use birthday_bot::date::Date;
use birthday_bot::models::Birthday;
use birthday_bot::store::BirthdayStore;

fn d(y: i32, m: u32, day: u32) -> Date {
    Date::from_ymd_opt(y, m, day).unwrap()
}

fn announced(store: &BirthdayStore, user: i64, guild: i64) -> bool {
    store.get_birthday(user, guild).unwrap().announced_this_year
}

#[test]
fn one_birthday_with_a_channel_is_greeted_and_marked() {
    let mut store = BirthdayStore::new();
    store.insert_birthday(1, 9, d(2001, 3, 5)).unwrap();
    store.insert_guild_settings(9, Some(100)).unwrap();
    let today = d(2024, 3, 5);
    let plan = handle_birthday_announcements(&store, &today);
    assert_eq!(plan.len(), 1);
    assert_eq!(plan[0].guild_id, 9);
    assert_eq!(plan[0].channel_id, Some(100));
    assert_eq!(plan[0].user_mentions, "<@1> (23 years old)");
    assert_eq!(plan[0].birthday_ids, vec![store.get_birthday(1, 9).unwrap().id]);
    finish_birthday_announcements(&mut store, &plan, &vec![true], &today);
    assert!(announced(&store, 1, 9));
    assert!(handle_birthday_announcements(&store, &today).is_empty());
}

#[test]
fn two_birthdays_in_a_guild_share_one_greeting() {
    let mut store = BirthdayStore::new();
    store.insert_birthday(1, 9, d(2001, 3, 5)).unwrap();
    store.insert_birthday(2, 9, d(1990, 3, 5)).unwrap();
    store.insert_guild_settings(9, Some(100)).unwrap();
    let today = d(2024, 3, 5);
    let plan = handle_birthday_announcements(&store, &today);
    assert_eq!(plan.len(), 1);
    assert_eq!(plan[0].user_mentions, "<@1> (23 years old), <@2> (34 years old)");
    assert_eq!(plan[0].birthday_ids.len(), 2);
    finish_birthday_announcements(&mut store, &plan, &vec![true], &today);
    assert!(announced(&store, 1, 9));
    assert!(announced(&store, 2, 9));
}

#[test]
fn no_channel_means_no_greeting_and_no_mark() {
    let mut store = BirthdayStore::new();
    store.insert_birthday(1, 9, d(2001, 3, 5)).unwrap();
    let today = d(2024, 3, 5);
    let plan = handle_birthday_announcements(&store, &today);
    assert_eq!(plan.len(), 1);
    assert_eq!(plan[0].channel_id, None);
    finish_birthday_announcements(&mut store, &plan, &vec![true], &today);
    assert!(!announced(&store, 1, 9));
}

#[test]
fn stale_flag_is_cleared_the_next_day() {
    let mut store = BirthdayStore::new();
    store.insert_birthday(1, 9, d(2023, 3, 5)).unwrap();
    let id = store.get_birthday(1, 9).unwrap().id;
    store.update_announced_value(&vec![id]);
    let today = d(2024, 3, 6);
    let plan = handle_birthday_announcements(&store, &today);
    assert!(plan.is_empty());
    finish_birthday_announcements(&mut store, &plan, &Vec::new(), &today);
    assert!(!announced(&store, 1, 9));
}

#[test]
fn failed_delivery_is_retried_on_the_next_run() {
    let mut store = BirthdayStore::new();
    store.insert_birthday(1, 9, d(2001, 3, 5)).unwrap();
    store.insert_birthday(2, 8, d(2001, 3, 5)).unwrap();
    store.insert_guild_settings(9, Some(100)).unwrap();
    store.insert_guild_settings(8, Some(200)).unwrap();
    let today = d(2024, 3, 5);
    let plan = handle_birthday_announcements(&store, &today);
    assert_eq!(plan.len(), 2);
    let sent: Vec<bool> = plan.iter().map(|a| a.guild_id == 8).collect();
    finish_birthday_announcements(&mut store, &plan, &sent, &today);
    assert!(!announced(&store, 1, 9));
    assert!(announced(&store, 2, 8));
    let due: Vec<i64> = store.get_birthdays_today(&today).iter().map(|b| b.user_id).collect();
    assert_eq!(due, vec![1]);
    let retry = handle_birthday_announcements(&store, &today);
    assert_eq!(retry.len(), 1);
    assert_eq!(retry[0].guild_id, 9);
}

#[test]
fn greeted_once_per_year() {
    let mut store = BirthdayStore::new();
    store.insert_birthday(1, 9, d(2001, 3, 5)).unwrap();
    store.insert_guild_settings(9, Some(100)).unwrap();
    let mut greetings = 0;
    for today in [d(2024, 3, 5), d(2024, 3, 5), d(2024, 3, 6), d(2024, 3, 6), d(2024, 12, 31)] {
        let plan = handle_birthday_announcements(&store, &today);
        greetings += plan.len();
        let sent = vec![true; plan.len()];
        finish_birthday_announcements(&mut store, &plan, &sent, &today);
    }
    assert_eq!(greetings, 1);
    assert!(!announced(&store, 1, 9));
    let plan = handle_birthday_announcements(&store, &d(2025, 3, 5));
    assert_eq!(plan.len(), 1);
}

#[test]
fn grouping_keeps_each_guilds_rows_in_order() {
    let row = |id: i32, guild_id: i64| Birthday { id, user_id: id as i64, guild_id, date: d(2001, 3, 5), announced_this_year: false };
    let groups = group_birthdays_by_guild(vec![row(1, 9), row(2, 8), row(3, 9)]);
    assert_eq!(groups.len(), 2);
    let nine = groups.iter().find(|g| g.guild_id == 9).unwrap();
    let eight = groups.iter().find(|g| g.guild_id == 8).unwrap();
    assert_eq!(nine.birthdays.iter().map(|b| b.id).collect::<Vec<_>>(), vec![1, 3]);
    assert_eq!(eight.birthdays.iter().map(|b| b.id).collect::<Vec<_>>(), vec![2]);
    assert!(group_birthdays_by_guild(Vec::new()).is_empty());
}
