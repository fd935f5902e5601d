//! The announcement engine. A tick first plans one greeting per guild with
//! birthdays due today; the caller delivers what it can and reports back,
//! and the tick then marks the delivered rows and clears stale flags.
use crate::date::{date_lt, is_today_spec, Date};
use crate::format::{get_birthday_details, mentions_text};
use crate::models::{Birthday, GuildSettings};
use crate::store::{
    channel_of, in_guild, is_due, mark_announced, records_wf, reset_stale, select_rows,
    todays_unannounced, BirthdayStore, RowQuery,
};
use vstd::prelude::*;

verus! {

/// The birthdays of one guild.
pub struct GuildBirthdays {
    pub guild_id: i64,
    pub birthdays: Vec<Birthday>,
}

/// One of `groups` is for guild `g`.
pub open spec fn has_group(groups: Seq<GuildBirthdays>, g: i64) -> bool {
    exists|i: int| 0 <= i < groups.len() && (#[trigger] groups[i]).guild_id == g
}

/// Some row of `s` belongs to guild `g`.
pub open spec fn guild_occurs(s: Seq<Birthday>, g: i64) -> bool {
    exists|j: int| 0 <= j < s.len() && (#[trigger] s[j]).guild_id == g
}

fn contains_guild(guilds: &Vec<i64>, g: i64) -> (r: bool)
    ensures
        r == guilds@.contains(g),
{
    let mut i: usize = 0;
    while i < guilds.len()
        invariant
            i <= guilds@.len(),
            forall|j: int| 0 <= j < i ==> guilds@[j] != g,
        decreases guilds@.len() - i,
    {
        if guilds[i] == g {
            assert(guilds@[i as int] == g);
            return true;
        }
        i = i + 1;
    }
    false
}

/// Guild ids in order of first appearance in `s`, each once.
fn distinct_guilds(s: &Vec<Birthday>) -> (r: Vec<i64>)
    ensures
        forall|i: int, j: int| 0 <= i < j < r@.len() ==> r@[i] != r@[j],
        forall|i: int| 0 <= i < s@.len() ==> r@.contains(#[trigger] s@[i].guild_id),
        forall|i: int| 0 <= i < r@.len() ==> guild_occurs(s@, #[trigger] r@[i]),
{
    let mut guilds: Vec<i64> = Vec::new();
    let mut k: usize = 0;
    while k < s.len()
        invariant
            k <= s@.len(),
            forall|i: int, j: int| 0 <= i < j < guilds@.len() ==> guilds@[i] != guilds@[j],
            forall|i: int| 0 <= i < k ==> guilds@.contains(#[trigger] s@[i].guild_id),
            forall|i: int| 0 <= i < guilds@.len() ==> guild_occurs(s@.subrange(0, k as int), #[trigger] guilds@[i]),
        decreases s@.len() - k,
    {
        let g = s[k].guild_id;
        let found = contains_guild(&guilds, g);
        let ghost before = guilds@;
        if !found {
            guilds.push(g);
            proof {
                assert(guilds@ == before.push(g));
                assert forall|a: int| 0 <= a < k implies guilds@.contains(#[trigger] s@[a].guild_id) by {
                    let j = choose|j: int| 0 <= j < before.len() && before[j] == s@[a].guild_id;
                    assert(guilds@[j] == s@[a].guild_id);
                }
                assert(guilds@[before.len() as int] == g);
                assert forall|a: int| 0 <= a < guilds@.len() implies guild_occurs(s@.subrange(0, k + 1), #[trigger] guilds@[a]) by {
                    if a < before.len() {
                        assert(guilds@[a] == before[a]);
                        let j = choose|j: int| 0 <= j < k && #[trigger] s@.subrange(0, k as int)[j].guild_id == before[a];
                        assert(s@.subrange(0, k + 1)[j].guild_id == guilds@[a]);
                    } else {
                        assert(s@.subrange(0, k + 1)[k as int].guild_id == guilds@[a]);
                    }
                }
            }
        } else {
            proof {
                assert forall|a: int| 0 <= a < guilds@.len() implies guild_occurs(s@.subrange(0, k + 1), #[trigger] guilds@[a]) by {
                    let j = choose|j: int| 0 <= j < k && #[trigger] s@.subrange(0, k as int)[j].guild_id == guilds@[a];
                    assert(s@.subrange(0, k + 1)[j].guild_id == guilds@[a]);
                }
            }
        }
        assert(guilds@.contains(s@[k as int].guild_id));
        k = k + 1;
    }
    proof {
        assert(s@.subrange(0, k as int) =~= s@);
    }
    guilds
}

/// Splits `birthdays` by guild: one group per guild that occurs, each group
/// holding that guild's birthdays in their original order.
pub fn group_birthdays_by_guild(birthdays: Vec<Birthday>) -> (r: Vec<GuildBirthdays>)
    ensures
        forall|i: int, j: int| 0 <= i < j < r@.len() ==> r@[i].guild_id != r@[j].guild_id,
        forall|i: int| 0 <= i < r@.len() ==> (#[trigger] r@[i]).birthdays@ == in_guild(birthdays@, r@[i].guild_id),
        forall|i: int| 0 <= i < r@.len() ==> (#[trigger] r@[i]).birthdays@.len() > 0,
        forall|k: int| 0 <= k < birthdays@.len() ==> has_group(r@, (#[trigger] birthdays@[k]).guild_id),
{
    let guilds = distinct_guilds(&birthdays);
    let mut groups: Vec<GuildBirthdays> = Vec::new();
    let mut i: usize = 0;
    while i < guilds.len()
        invariant
            i <= guilds@.len(),
            groups@.len() == i,
            forall|a: int, b: int| 0 <= a < b < guilds@.len() ==> guilds@[a] != guilds@[b],
            forall|a: int| 0 <= a < guilds@.len() ==> guild_occurs(birthdays@, #[trigger] guilds@[a]),
            forall|a: int| 0 <= a < i ==> (#[trigger] groups@[a]).guild_id == guilds@[a],
            forall|a: int| 0 <= a < i ==> (#[trigger] groups@[a]).birthdays@ == in_guild(birthdays@, groups@[a].guild_id),
            forall|a: int| 0 <= a < i ==> (#[trigger] groups@[a]).birthdays@.len() > 0,
        decreases guilds@.len() - i,
    {
        let g = guilds[i];
        let members = select_rows(&birthdays, &RowQuery::InGuild(g), Ghost(|b: Birthday| b.guild_id == g));
        proof {
            let j = choose|j: int| 0 <= j < birthdays@.len() && #[trigger] birthdays@[j].guild_id == g;
            birthdays@.lemma_filter_contains(|b: Birthday| b.guild_id == g, j);
        }
        groups.push(GuildBirthdays { guild_id: g, birthdays: members });
        i = i + 1;
    }
    proof {
        assert forall|k: int| 0 <= k < birthdays@.len() implies has_group(groups@, (#[trigger] birthdays@[k]).guild_id) by {
            let a = choose|a: int| 0 <= a < guilds@.len() && guilds@[a] == birthdays@[k].guild_id;
            assert(groups@[a].guild_id == birthdays@[k].guild_id);
        }
    }
    groups
}


/// The greeting planned for one guild: where it goes, whose rows it covers,
/// and the text naming each member with their age.
pub struct GuildAnnouncement {
    pub guild_id: i64,
    /// None when the guild has no announcement channel: nothing is sent.
    pub channel_id: Option<i64>,
    pub birthday_ids: Vec<i32>,
    pub user_mentions: String,
}

pub open spec fn ids_of(s: Seq<Birthday>) -> Seq<i32> {
    s.map_values(|b: Birthday| b.id)
}

/// `a` is the greeting for its guild, given today's due rows and the settings.
pub open spec fn announcement_for(
    a: GuildAnnouncement,
    due: Seq<Birthday>,
    settings: Seq<GuildSettings>,
    today: Date,
) -> bool {
    &&& a.channel_id == channel_of(settings, a.guild_id)
    &&& a.birthday_ids@ == ids_of(in_guild(due, a.guild_id))
    &&& a.user_mentions@ == mentions_text(in_guild(due, a.guild_id), today)
}

/// One of `plan` is for guild `g`.
pub open spec fn has_announcement(plan: Seq<GuildAnnouncement>, g: i64) -> bool {
    exists|i: int| 0 <= i < plan.len() && (#[trigger] plan[i]).guild_id == g
}

/// `plan` holds exactly one greeting for each guild with a birthday due today
/// and not yet announced, and no other.
pub open spec fn is_plan(
    plan: Seq<GuildAnnouncement>,
    records: Seq<Birthday>,
    settings: Seq<GuildSettings>,
    today: Date,
) -> bool {
    let due = todays_unannounced(records, today);
    &&& forall|i: int, j: int| 0 <= i < j < plan.len() ==> plan[i].guild_id != plan[j].guild_id
    &&& forall|i: int| 0 <= i < plan.len() ==> announcement_for(#[trigger] plan[i], due, settings, today)
    &&& forall|i: int| 0 <= i < plan.len() ==> in_guild(due, (#[trigger] plan[i]).guild_id).len() > 0
    &&& forall|k: int| 0 <= k < due.len() ==> has_announcement(plan, (#[trigger] due[k]).guild_id)
}

/// Ids of the rows whose greeting went out: those of each planned greeting
/// that had a channel and was reported sent.
pub open spec fn delivered_ids(plan: Seq<GuildAnnouncement>, sent: Seq<bool>) -> Set<i32> {
    delivered_ids_upto(plan, sent, plan.len() as int)
}

pub open spec fn delivered_ids_upto(plan: Seq<GuildAnnouncement>, sent: Seq<bool>, n: int) -> Set<i32> {
    Set::new(
        |id: i32|
            exists|i: int|
                0 <= i < n && sent[i] && plan[i].channel_id is Some && (
                #[trigger] plan[i]).birthday_ids@.contains(id),
    )
}

/// The rows after one engine run on `today` whose greetings for the rows in
/// `delivered` went out: those marked announced, then every stale flag cleared.
pub open spec fn tick(s: Seq<Birthday>, today: Date, delivered: Set<i32>) -> Seq<Birthday> {
    reset_stale(mark_announced(s, delivered), today)
}

proof fn lemma_filter_dates_wf(s: Seq<Birthday>, pred: spec_fn(Birthday) -> bool)
    requires
        forall|i: int| 0 <= i < s.len() ==> (#[trigger] s[i]).date.wf(),
    ensures
        forall|i: int| 0 <= i < s.filter(pred).len() ==> (#[trigger] s.filter(pred)[i]).date.wf(),
{
    assert forall|i: int| 0 <= i < s.filter(pred).len() implies (#[trigger] s.filter(pred)[i]).date.wf() by {
        s.lemma_filter_contains_rev(pred, s.filter(pred)[i]);
    }
}

proof fn lemma_mark_twice(s: Seq<Birthday>, a: Set<i32>, b: Set<i32>)
    ensures
        mark_announced(mark_announced(s, a), b) == mark_announced(s, a.union(b)),
{
    assert(mark_announced(mark_announced(s, a), b) =~= mark_announced(s, a.union(b)));
}

/// Looks up the channel of `guild_id` and writes the greeting for `entries`.
pub fn announce_birthday_to_guild(
    store: &BirthdayStore,
    guild_id: i64,
    entries: &Vec<Birthday>,
    today: &Date,
) -> (r: GuildAnnouncement)
    requires
        store.wf(),
        today.wf(),
        forall|i: int| 0 <= i < entries@.len() ==> (#[trigger] entries@[i]).date.wf(),
    ensures
        r.guild_id == guild_id,
        r.channel_id == channel_of(store.settings(), guild_id),
        r.birthday_ids@ == ids_of(entries@),
        r.user_mentions@ == mentions_text(entries@, *today),
{
    let channel_id = store.get_announcement_channel(guild_id);
    let (user_mentions, _details) = get_birthday_details(entries, today);
    let mut birthday_ids: Vec<i32> = Vec::new();
    let mut i: usize = 0;
    while i < entries.len()
        invariant
            i <= entries@.len(),
            birthday_ids@ == ids_of(entries@.subrange(0, i as int)),
        decreases entries@.len() - i,
    {
        birthday_ids.push(entries[i].id);
        i = i + 1;
        assert(birthday_ids@ =~= ids_of(entries@.subrange(0, i as int)));
    }
    assert(entries@.subrange(0, i as int) =~= entries@);
    GuildAnnouncement { guild_id, channel_id, birthday_ids, user_mentions }
}

/// Plans this run's greetings: today's unannounced birthdays, grouped by
/// guild, one greeting per guild. With nothing due the plan is empty and no
/// channel is looked up.
pub fn handle_birthday_announcements(store: &BirthdayStore, today: &Date) -> (r: Vec<GuildAnnouncement>)
    requires
        store.wf(),
        today.wf(),
    ensures
        is_plan(r@, store.records(), store.settings(), *today),
{
    let due = store.get_birthdays_today(today);
    let ghost due_s = due@;
    proof {
        lemma_filter_dates_wf(store.records(), |b: Birthday| is_due(b, *today));
    }
    let groups = group_birthdays_by_guild(due);
    let mut plan: Vec<GuildAnnouncement> = Vec::new();
    let mut i: usize = 0;
    while i < groups.len()
        invariant
            store.wf(),
            today.wf(),
            due_s == todays_unannounced(store.records(), *today),
            forall|k: int| 0 <= k < due_s.len() ==> (#[trigger] due_s[k]).date.wf(),
            i <= groups@.len(),
            plan@.len() == i,
            forall|a: int, b: int| 0 <= a < b < groups@.len() ==> groups@[a].guild_id != groups@[b].guild_id,
            forall|a: int| 0 <= a < groups@.len() ==> (#[trigger] groups@[a]).birthdays@ == in_guild(due_s, groups@[a].guild_id),
            forall|a: int| 0 <= a < groups@.len() ==> (#[trigger] groups@[a]).birthdays@.len() > 0,
            forall|k: int| 0 <= k < due_s.len() ==> has_group(groups@, (#[trigger] due_s[k]).guild_id),
            forall|a: int| 0 <= a < i ==> (#[trigger] plan@[a]).guild_id == groups@[a].guild_id,
            forall|a: int| 0 <= a < i ==> announcement_for(#[trigger] plan@[a], due_s, store.settings(), *today),
        decreases groups@.len() - i,
    {
        let group = &groups[i];
        proof {
            lemma_filter_dates_wf(due_s, |b: Birthday| b.guild_id == group.guild_id);
        }
        let a = announce_birthday_to_guild(store, group.guild_id, &group.birthdays, today);
        plan.push(a);
        i = i + 1;
    }
    proof {
        assert forall|k: int| 0 <= k < due_s.len() implies has_announcement(plan@, (#[trigger] due_s[k]).guild_id) by {
            let a = choose|a: int| 0 <= a < groups@.len() && (#[trigger] groups@[a]).guild_id == due_s[k].guild_id;
            assert(plan@[a].guild_id == due_s[k].guild_id);
        }
    }
    plan
}

/// Ends the run: marks announced the rows of each planned greeting that had a
/// channel and was reported sent (`sent[i]` for `plan[i]`), and then clears
/// every stale flag, whatever was sent.
pub fn finish_birthday_announcements(
    store: &mut BirthdayStore,
    plan: &Vec<GuildAnnouncement>,
    sent: &Vec<bool>,
    today: &Date,
)
    requires
        old(store).wf(),
        sent@.len() == plan@.len(),
    ensures
        final(store).wf(),
        final(store).settings() == old(store).settings(),
        final(store).records() == tick(old(store).records(), *today, delivered_ids(plan@, sent@)),
{
    let ghost o = store.records();
    let mut i: usize = 0;
    while i < plan.len()
        invariant
            store.wf(),
            store.settings() == old(store).settings(),
            o == old(store).records(),
            sent@.len() == plan@.len(),
            i <= plan@.len(),
            store.records() == mark_announced(o, delivered_ids_upto(plan@, sent@, i as int)),
        decreases plan@.len() - i,
    {
        let ghost before = delivered_ids_upto(plan@, sent@, i as int);
        let ghost after = delivered_ids_upto(plan@, sent@, i + 1);
        if sent[i] && plan[i].channel_id.is_some() {
            store.update_announced_value(&plan[i].birthday_ids);
            proof {
                lemma_mark_twice(o, before, plan@[i as int].birthday_ids@.to_set());
                assert(before.union(plan@[i as int].birthday_ids@.to_set()) =~= after);
            }
        } else {
            assert(before =~= after);
        }
        i = i + 1;
    }
    store.reset_announced_flags(today);
}


/// The rows after the first `n` runs of a sequence, run `i` taking place on
/// `days[i]` with the greetings for the rows in `delivered[i]` gone out.
pub open spec fn run_states(
    s0: Seq<Birthday>,
    days: Seq<Date>,
    delivered: Seq<Set<i32>>,
    n: nat,
) -> Seq<Birthday>
    decreases n,
{
    if n == 0 {
        s0
    } else {
        tick(run_states(s0, days, delivered, (n - 1) as nat), days[n - 1], delivered[n - 1])
    }
}

/// Run `i` takes row `k` from not announced to announced.
pub open spec fn fires(
    s0: Seq<Birthday>,
    days: Seq<Date>,
    delivered: Seq<Set<i32>>,
    i: int,
    k: int,
) -> bool {
    &&& !run_states(s0, days, delivered, i as nat)[k].announced_this_year
    &&& run_states(s0, days, delivered, (i + 1) as nat)[k].announced_this_year
}

proof fn lemma_tick_at(s: Seq<Birthday>, today: Date, delivered: Set<i32>, k: int)
    requires
        0 <= k < s.len(),
    ensures
        tick(s, today, delivered).len() == s.len(),
        tick(s, today, delivered)[k] == (Birthday {
            announced_this_year: is_today_spec(s[k].date, today) && (s[k].announced_this_year
                || delivered.contains(s[k].id)),
            ..s[k]
        }),
{
}

proof fn lemma_run_shape(s0: Seq<Birthday>, days: Seq<Date>, delivered: Seq<Set<i32>>, n: nat)
    ensures
        run_states(s0, days, delivered, n).len() == s0.len(),
        forall|k: int|
            0 <= k < s0.len() ==> (#[trigger] run_states(s0, days, delivered, n)[k]).date == s0[k].date,
    decreases n,
{
    if n > 0 {
        lemma_run_shape(s0, days, delivered, (n - 1) as nat);
        let prev = run_states(s0, days, delivered, (n - 1) as nat);
        assert forall|k: int| 0 <= k < s0.len() implies (#[trigger] run_states(s0, days, delivered, n)[k]).date
            == s0[k].date by {
            lemma_tick_at(prev, days[n - 1], delivered[n - 1], k);
        }
    }
}

proof fn lemma_stays_announced(
    s0: Seq<Birthday>,
    days: Seq<Date>,
    delivered: Seq<Set<i32>>,
    k: int,
    i: int,
    m: int,
)
    requires
        0 <= k < s0.len(),
        0 <= i < m <= days.len(),
        forall|a: int| i <= a < m ==> #[trigger] days[a] == days[i],
        run_states(s0, days, delivered, (i + 1) as nat)[k].announced_this_year,
    ensures
        run_states(s0, days, delivered, m as nat)[k].announced_this_year,
    decreases m - i,
{
    if m > i + 1 {
        lemma_stays_announced(s0, days, delivered, k, i, m - 1);
        let prev = run_states(s0, days, delivered, (m - 1) as nat);
        lemma_run_shape(s0, days, delivered, (m - 1) as nat);
        lemma_run_shape(s0, days, delivered, (i + 1) as nat);
        lemma_tick_at(prev, days[m - 1], delivered[m - 1], k);
        lemma_run_shape(s0, days, delivered, i as nat);
        lemma_tick_at(run_states(s0, days, delivered, i as nat), days[i], delivered[i], k);
        assert(days[m - 1] == days[i]);
    }
}

proof fn lemma_no_second_fire(
    s0: Seq<Birthday>,
    days: Seq<Date>,
    delivered: Seq<Set<i32>>,
    k: int,
    i: int,
    j: int,
)
    requires
        days.len() == delivered.len(),
        forall|a: int, b: int| 0 <= a < b < days.len() ==> !date_lt(#[trigger] days[b], #[trigger] days[a]),
        forall|a: int| 0 <= a < days.len() ==> (#[trigger] days[a]).year == days[0].year,
        0 <= k < s0.len(),
        0 <= i < j < days.len(),
        fires(s0, days, delivered, i, k),
    ensures
        !fires(s0, days, delivered, j, k),
{
    lemma_run_shape(s0, days, delivered, i as nat);
    lemma_run_shape(s0, days, delivered, j as nat);
    lemma_tick_at(run_states(s0, days, delivered, i as nat), days[i], delivered[i], k);
    lemma_tick_at(run_states(s0, days, delivered, j as nat), days[j], delivered[j], k);
    if fires(s0, days, delivered, j, k) {
        assert(days[0].year == days[i].year);
        assert(days[j] == days[i]);
        assert forall|a: int| i <= a < j + 1 implies #[trigger] days[a] == days[i] by {
            if i < a && a < j {
                assert(!date_lt(days[a], days[i]));
                assert(!date_lt(days[j], days[a]));
            }
        }
        lemma_stays_announced(s0, days, delivered, k, i, j);
    }
}

/// Within one calendar year, whatever is delivered on each run, a row goes
/// from not announced to announced at most once: on runs whose days never go
/// back and all lie in one year, two runs that each announce row `k` are the
/// same run.
pub proof fn lemma_fires_at_most_once_per_year(
    s0: Seq<Birthday>,
    days: Seq<Date>,
    delivered: Seq<Set<i32>>,
    k: int,
    i: int,
    j: int,
)
    requires
        days.len() == delivered.len(),
        forall|a: int, b: int| 0 <= a < b < days.len() ==> !date_lt(#[trigger] days[b], #[trigger] days[a]),
        forall|a: int| 0 <= a < days.len() ==> (#[trigger] days[a]).year == days[0].year,
        0 <= k < s0.len(),
        0 <= i < days.len(),
        0 <= j < days.len(),
        fires(s0, days, delivered, i, k),
        fires(s0, days, delivered, j, k),
    ensures
        i == j,
{
    if i < j {
        lemma_no_second_fire(s0, days, delivered, k, i, j);
    } else if j < i {
        lemma_no_second_fire(s0, days, delivered, k, j, i);
    }
}

/// A due row whose guild's greeting did not go out, for want of a channel or
/// because sending failed, is still among today's unannounced rows after the
/// run, and so is tried again on the next run of the same day.
pub proof fn lemma_undelivered_stays_due(
    records: Seq<Birthday>,
    settings: Seq<GuildSettings>,
    today: Date,
    plan: Seq<GuildAnnouncement>,
    sent: Seq<bool>,
    k: int,
)
    requires
        records_wf(records),
        is_plan(plan, records, settings, today),
        sent.len() == plan.len(),
        0 <= k < records.len(),
        is_due(records[k], today),
        forall|i: int|
            0 <= i < plan.len() && (#[trigger] plan[i]).guild_id == records[k].guild_id ==> !(sent[i]
                && plan[i].channel_id is Some),
    ensures
        todays_unannounced(tick(records, today, delivered_ids(plan, sent)), today).contains(records[k]),
{
    let r = records[k];
    let due = todays_unannounced(records, today);
    let d = delivered_ids(plan, sent);
    if d.contains(r.id) {
        let i = choose|i: int|
            0 <= i < plan.len() && sent[i] && plan[i].channel_id is Some && (
            #[trigger] plan[i]).birthday_ids@.contains(r.id);
        let g = plan[i].guild_id;
        let pred = |b: Birthday| b.guild_id == g;
        assert(announcement_for(plan[i], due, settings, today));
        let members = in_guild(due, g);
        let m = choose|m: int| 0 <= m < plan[i].birthday_ids@.len() && plan[i].birthday_ids@[m] == r.id;
        let e = members[m];
        assert(e.id == r.id);
        due.lemma_filter_pred(pred, m);
        due.lemma_filter_contains_rev(pred, e);
        records.lemma_filter_contains_rev(|b: Birthday| is_due(b, today), e);
        let p = choose|p: int| 0 <= p < records.len() && records[p] == e;
        assert(p == k);
        assert(false);
    }
    let after = tick(records, today, d);
    lemma_tick_at(records, today, d, k);
    assert(after[k] == r);
    after.lemma_filter_contains(|b: Birthday| is_due(b, today), k);
}

} // verus!
