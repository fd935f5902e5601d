use birthday_bot::date::Date;
use birthday_bot::models::Birthday;
use birthday_bot::pages::{create_birthday_list_pages, turn_page};

fn d(y: i32, m: u32, day: u32) -> Date {
    Date::from_ymd_opt(y, m, day).unwrap()
}

#[test]
fn pages_of_five_lines() {
    let rows: Vec<Birthday> = (1..=6)
        .map(|i| Birthday { id: i, user_id: i as i64, guild_id: 9, date: d(2000, 3, i as u32), announced_this_year: false })
        .collect();
    let pages = create_birthday_list_pages(&rows, &d(2024, 3, 2));
    assert_eq!(pages.len(), 2);
    assert_eq!(
        pages[0],
        "<@1>: March 1st (24 years old)\n<@2>: **March 2nd** (24 years old)\n<@3>: March 3rd (23 years old)\n<@4>: March 4th (23 years old)\n<@5>: March 5th (23 years old)\n"
    );
    assert_eq!(pages[1], "<@6>: March 6th (23 years old)\n");
    assert!(create_birthday_list_pages(&Vec::new(), &d(2024, 3, 2)).is_empty());
}

#[test]
fn paging_wraps_around() {
    assert_eq!(turn_page(0, 3, true), 1);
    assert_eq!(turn_page(2, 3, true), 0);
    assert_eq!(turn_page(0, 3, false), 2);
    assert_eq!(turn_page(2, 3, false), 1);
    assert_eq!(turn_page(0, 1, true), 0);
}
