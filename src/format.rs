//! Text renderings of dates and birthdays for messages.
use crate::date::{age_spec, calculate_age, is_today, is_today_spec, Date};
use crate::models::Birthday;
use crate::text::{decimal_of, digits_of, push_decimal, push_two_digits, two_digits_of};
use vstd::prelude::*;
use vstd::string::*;

verus! {

/// `MM-DD` with both parts on two digits.
pub open spec fn month_day_text(date: Date) -> Seq<char> {
    two_digits_of(date.month as nat) + seq!['-'] + two_digits_of(date.day as nat)
}

/// Month and day of `date` as `MM-DD`.
pub fn format_announcment_date(date: &Date) -> (r: String)
    ensures
        r@ == month_day_text(*date),
{
    let mut s = String::new();
    push_two_digits(&mut s, date.month);
    proof { reveal_strlit("-"); }
    s.append("-");
    push_two_digits(&mut s, date.day);
    s
}

/// `<@user> (age years old)`: a mention of the member with the age they turn.
pub open spec fn mention_text(b: Birthday, today: Date) -> Seq<char> {
    seq!['<', '@'] + decimal_of(b.user_id as int) + seq!['>', ' ', '('] + decimal_of(
        age_spec(b.date, today),
    ) + seq![' ', 'y', 'e', 'a', 'r', 's', ' ', 'o', 'l', 'd', ')']
}

/// The mentions of `s`, separated by `, `.
pub open spec fn mentions_text(s: Seq<Birthday>, today: Date) -> Seq<char>
    decreases s.len(),
{
    if s.len() == 0 {
        Seq::empty()
    } else if s.len() == 1 {
        mention_text(s[0], today)
    } else {
        mentions_text(s.drop_last(), today) + seq![',', ' '] + mention_text(s.last(), today)
    }
}

/// The greeting text for `entries` (each member mentioned with the age they
/// turn, separated by `, `), and for each entry its `MM-DD` date and age.
pub fn get_birthday_details(entries: &Vec<Birthday>, today: &Date) -> (r: (String, Vec<(String, i32)>))
    requires
        today.wf(),
        forall|i: int| 0 <= i < entries@.len() ==> (#[trigger] entries@[i]).date.wf(),
    ensures
        r.0@ == mentions_text(entries@, *today),
        r.1@.len() == entries@.len(),
        forall|i: int|
            0 <= i < entries@.len() ==> (#[trigger] r.1@[i]).0@ == month_day_text(entries@[i].date)
                && r.1@[i].1 as int == age_spec(entries@[i].date, *today),
{
    let mut user_mentions = String::new();
    let mut birthday_details: Vec<(String, i32)> = Vec::new();
    let mut i: usize = 0;
    while i < entries.len()
        invariant
            i <= entries@.len(),
            today.wf(),
            forall|j: int| 0 <= j < entries@.len() ==> (#[trigger] entries@[j]).date.wf(),
            user_mentions@ == mentions_text(entries@.subrange(0, i as int), *today),
            birthday_details@.len() == i,
            forall|j: int|
                0 <= j < i ==> (#[trigger] birthday_details@[j]).0@ == month_day_text(entries@[j].date)
                    && birthday_details@[j].1 as int == age_spec(entries@[j].date, *today),
        decreases entries@.len() - i,
    {
        let birthday = entries[i];
        let age = calculate_age(&birthday.date, today);
        let ghost before = user_mentions@;
        if i > 0 {
            proof { reveal_strlit(", "); }
            user_mentions.append(", ");
        }
        proof { reveal_strlit("<@"); }
        user_mentions.append("<@");
        push_decimal(&mut user_mentions, birthday.user_id);
        proof { reveal_strlit("> ("); }
        user_mentions.append("> (");
        push_decimal(&mut user_mentions, age as i64);
        proof { reveal_strlit(" years old)"); }
        user_mentions.append(" years old)");
        proof {
            let p = entries@.subrange(0, i as int + 1);
            assert(p.drop_last() =~= entries@.subrange(0, i as int));
            assert(p.last() == birthday);
            if i == 0 {
                assert(user_mentions@ =~= mention_text(birthday, *today));
            } else {
                assert(user_mentions@ =~= before + seq![',', ' '] + mention_text(birthday, *today));
            }
        }
        birthday_details.push((format_announcment_date(&birthday.date), age));
        i = i + 1;
    }
    proof {
        assert(entries@.subrange(0, i as int) =~= entries@);
    }
    (user_mentions, birthday_details)
}


/// English name of month `m`.
pub open spec fn month_name_spec(m: u32) -> Seq<char> {
    if m == 1 {
        "January"@
    } else if m == 2 {
        "February"@
    } else if m == 3 {
        "March"@
    } else if m == 4 {
        "April"@
    } else if m == 5 {
        "May"@
    } else if m == 6 {
        "June"@
    } else if m == 7 {
        "July"@
    } else if m == 8 {
        "August"@
    } else if m == 9 {
        "September"@
    } else if m == 10 {
        "October"@
    } else if m == 11 {
        "November"@
    } else {
        "December"@
    }
}

/// Relies on chrono's `Month::name` (reached through `Month::try_from`): the
/// English name of the month numbered `month`.
#[verifier::external_body]
fn month_name(month: u32) -> (r: String)
    requires
        1 <= month <= 12,
    ensures
        r@ == month_name_spec(month),
{
    chrono::Month::try_from(month as u8).expect("month in 1..=12").name().to_string()
}

/// English ordinal suffix of a day of the month: 1st, 2nd, 3rd, 4th, ..., 31st.
pub open spec fn ordinal_suffix(day: u32) -> Seq<char> {
    if day == 1 || day == 21 || day == 31 {
        seq!['s', 't']
    } else if day == 2 || day == 22 {
        seq!['n', 'd']
    } else if day == 3 || day == 23 {
        seq!['r', 'd']
    } else {
        seq!['t', 'h']
    }
}

fn ordinal_suffix_str(day: u32) -> (r: &'static str)
    ensures
        r@ == ordinal_suffix(day),
{
    if day == 1 || day == 21 || day == 31 {
        proof { reveal_strlit("st"); }
        "st"
    } else if day == 2 || day == 22 {
        proof { reveal_strlit("nd"); }
        "nd"
    } else if day == 3 || day == 23 {
        proof { reveal_strlit("rd"); }
        "rd"
    } else {
        proof { reveal_strlit("th"); }
        "th"
    }
}

/// `March 5th`.
pub open spec fn date_without_year_text(date: Date) -> Seq<char> {
    month_name_spec(date.month) + seq![' '] + digits_of(date.day as nat) + ordinal_suffix(date.day)
}

/// `March 5th, 2001`.
pub open spec fn date_text(date: Date) -> Seq<char> {
    date_without_year_text(date) + seq![',', ' '] + decimal_of(date.year as int)
}

/// Month and day of `date` in words, such as `March 5th`.
pub fn format_date_without_year(date: &Date) -> (r: String)
    requires
        date.wf(),
    ensures
        r@ == date_without_year_text(*date),
{
    let mut s = month_name(date.month);
    proof { reveal_strlit(" "); }
    s.append(" ");
    push_decimal(&mut s, date.day as i64);
    s.append(ordinal_suffix_str(date.day));
    s
}

/// `date` in words, such as `March 5th, 2001`.
pub fn format_date(date: &Date) -> (r: String)
    requires
        date.wf(),
    ensures
        r@ == date_text(*date),
{
    let mut s = format_date_without_year(date);
    proof { reveal_strlit(", "); }
    s.append(", ");
    push_decimal(&mut s, date.year as i64);
    s
}

/// The birthday's month and day in words, in bold when it is today.
pub open spec fn birthday_text(b: Birthday, today: Date) -> Seq<char> {
    if is_today_spec(b.date, today) {
        seq!['*', '*'] + date_without_year_text(b.date) + seq!['*', '*']
    } else {
        date_without_year_text(b.date)
    }
}

/// The birthday's month and day in words, in bold when it is today.
pub fn format_birthday_with_age(birthday: &Birthday, today: &Date) -> (r: String)
    requires
        birthday.date.wf(),
    ensures
        r@ == birthday_text(*birthday, *today),
{
    let formatted = format_date_without_year(&birthday.date);
    if is_today(&birthday.date, today) {
        let mut s = String::new();
        proof { reveal_strlit("**"); }
        s.append("**");
        s.append(formatted.as_str());
        s.append("**");
        assert(s@ =~= birthday_text(*birthday, *today));
        s
    } else {
        formatted
    }
}

} // verus!
