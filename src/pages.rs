//! The paged birthday list of a guild.
use crate::date::{age_spec, calculate_age, Date};
use crate::format::{birthday_text, format_birthday_with_age};
use crate::models::Birthday;
use crate::text::{decimal_of, push_decimal};
use vstd::prelude::*;
use vstd::string::*;

verus! {

/// Birthdays shown on one page of the list.
pub const PAGE_SIZE: usize = 5;

/// `<@user>: March 5th (23 years old)` and a line break.
pub open spec fn list_line(b: Birthday, today: Date) -> Seq<char> {
    seq!['<', '@'] + decimal_of(b.user_id as int) + seq!['>', ':', ' '] + birthday_text(b, today)
        + seq![' ', '('] + decimal_of(age_spec(b.date, today)) + seq![
        ' ',
        'y',
        'e',
        'a',
        'r',
        's',
        ' ',
        'o',
        'l',
        'd',
        ')',
        '\n',
    ]
}

/// The lines of `s`, one after the other.
pub open spec fn page_text(s: Seq<Birthday>, today: Date) -> Seq<char>
    decreases s.len(),
{
    if s.len() == 0 {
        Seq::empty()
    } else {
        page_text(s.drop_last(), today) + list_line(s.last(), today)
    }
}

/// Number of pages that `n` birthdays fill.
pub open spec fn page_count(n: int) -> int {
    (n + PAGE_SIZE - 1) / PAGE_SIZE as int
}

/// The birthdays on page `p`.
pub open spec fn page_slice(s: Seq<Birthday>, p: int) -> Seq<Birthday> {
    let start = p * PAGE_SIZE;
    let end = if start + PAGE_SIZE <= s.len() { start + PAGE_SIZE } else { s.len() as int };
    s.subrange(start, end)
}

fn push_line(s: &mut String, b: &Birthday, today: &Date)
    requires
        b.date.wf(),
        today.wf(),
    ensures
        final(s)@ == old(s)@ + list_line(*b, *today),
{
    proof { reveal_strlit("<@"); }
    s.append("<@");
    push_decimal(s, b.user_id);
    proof { reveal_strlit(">: "); }
    s.append(">: ");
    let formatted = format_birthday_with_age(b, today);
    s.append(formatted.as_str());
    proof { reveal_strlit(" ("); }
    s.append(" (");
    push_decimal(s, calculate_age(&b.date, today) as i64);
    proof { reveal_strlit(" years old)\n"); }
    s.append(" years old)\n");
    assert(final(s)@ =~= old(s)@ + list_line(*b, *today));
}

/// The list split into pages of `PAGE_SIZE` birthdays, each page the lines of
/// its birthdays in order.
pub fn create_birthday_list_pages(birthdays: &Vec<Birthday>, today: &Date) -> (r: Vec<String>)
    requires
        today.wf(),
        forall|i: int| 0 <= i < birthdays@.len() ==> (#[trigger] birthdays@[i]).date.wf(),
    ensures
        r@.len() == page_count(birthdays@.len() as int),
        forall|p: int| 0 <= p < r@.len() ==> (#[trigger] r@[p])@ == page_text(page_slice(birthdays@, p), *today),
{
    let n = birthdays.len();
    let mut pages: Vec<String> = Vec::new();
    let mut start: usize = 0;
    while start < n
        invariant
            n == birthdays@.len(),
            today.wf(),
            forall|i: int| 0 <= i < birthdays@.len() ==> (#[trigger] birthdays@[i]).date.wf(),
            start <= n,
            start < n ==> start == pages@.len() * PAGE_SIZE,
            start == n ==> n <= pages@.len() * PAGE_SIZE,
            pages@.len() <= page_count(n as int),
            start < n ==> pages@.len() < page_count(n as int),
            start >= n ==> pages@.len() == page_count(n as int),
            forall|p: int| 0 <= p < pages@.len() ==> (#[trigger] pages@[p])@ == page_text(page_slice(birthdays@, p), *today),
        decreases n - start,
    {
        let end: usize = if start + PAGE_SIZE <= n { start + PAGE_SIZE } else { n };
        let mut page = String::new();
        let mut i: usize = start;
        while i < end
            invariant
                start <= i <= end <= n,
                n == birthdays@.len(),
                today.wf(),
                forall|i: int| 0 <= i < birthdays@.len() ==> (#[trigger] birthdays@[i]).date.wf(),
                page@ == page_text(birthdays@.subrange(start as int, i as int), *today),
            decreases end - i,
        {
            push_line(&mut page, &birthdays[i], today);
            proof {
                let t = birthdays@.subrange(start as int, i + 1);
                assert(t.drop_last() =~= birthdays@.subrange(start as int, i as int));
            }
            i = i + 1;
        }
        proof {
            assert(page_slice(birthdays@, pages@.len() as int) =~= birthdays@.subrange(start as int, end as int));
        }
        pages.push(page);
        start = end;
    }
    pages
}

/// The page shown after pressing next (`forward`) or previous on page
/// `current` of `total`, wrapping around at either end.
pub fn turn_page(current: usize, total: usize, forward: bool) -> (r: usize)
    requires
        current < total,
    ensures
        r < total,
        forward ==> r == (if current + 1 >= total { 0 } else { current + 1 }),
        !forward ==> r == (if current == 0 { total - 1 } else { current - 1 }),
{
    if forward {
        if current + 1 >= total {
            0
        } else {
            current + 1
        }
    } else if current == 0 {
        total - 1
    } else {
        current - 1
    }
}

} // verus!
