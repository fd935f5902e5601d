//! The birthday store: birthday rows keyed by (user, guild), guild settings
//! keyed by guild, and the queries that the announcement engine runs on them.
use crate::date::{is_today_spec, Date};
use crate::models::{Birthday, GuildSettings, NewBirthday, NewGuildSettings};
use vstd::prelude::*;

verus! {

/// Why a write was refused.
#[derive(Clone, Copy, Debug, PartialEq, Eq, Structural)]
pub enum StoreError {
    /// Every identity a new row could take is already used.
    IdsExhausted,
}

pub open spec fn has_key(b: Birthday, user_id: i64, guild_id: i64) -> bool {
    b.user_id == user_id && b.guild_id == guild_id
}

/// Due for a greeting today and not yet greeted.
pub open spec fn is_due(b: Birthday, today: Date) -> bool {
    is_today_spec(b.date, today) && !b.announced_this_year
}

/// Greeted in an earlier cycle: the flag is set on a day that is not the birthday.
pub open spec fn is_stale(b: Birthday, today: Date) -> bool {
    b.announced_this_year && !is_today_spec(b.date, today)
}

pub open spec fn todays_unannounced(s: Seq<Birthday>, today: Date) -> Seq<Birthday> {
    s.filter(|b: Birthday| is_due(b, today))
}

pub open spec fn stale_announced(s: Seq<Birthday>, today: Date) -> Seq<Birthday> {
    s.filter(|b: Birthday| is_stale(b, today))
}

pub open spec fn in_guild(s: Seq<Birthday>, guild_id: i64) -> Seq<Birthday> {
    s.filter(|b: Birthday| b.guild_id == guild_id)
}

/// `b` with its flag set to `value` when its id is in `ids`.
pub open spec fn flagged(b: Birthday, ids: Set<i32>, value: bool) -> Birthday {
    if ids.contains(b.id) {
        Birthday { announced_this_year: value, ..b }
    } else {
        b
    }
}

pub open spec fn mark_announced(s: Seq<Birthday>, ids: Set<i32>) -> Seq<Birthday> {
    s.map_values(|b: Birthday| flagged(b, ids, true))
}

/// Every stale flag cleared, every other row as it was.
pub open spec fn reset_stale(s: Seq<Birthday>, today: Date) -> Seq<Birthday> {
    s.map_values(
        |b: Birthday|
            if is_stale(b, today) {
                Birthday { announced_this_year: false, ..b }
            } else {
                b
            },
    )
}

/// Ids are unique, (user, guild) pairs are unique, dates are calendar dates.
pub open spec fn records_wf(s: Seq<Birthday>) -> bool {
    &&& forall|i: int| 0 <= i < s.len() ==> (#[trigger] s[i]).date.wf()
    &&& forall|i: int, j: int|
        0 <= i < s.len() && 0 <= j < s.len() && i != j ==> (#[trigger] s[i]).id != (#[trigger] s[j]).id
    &&& forall|i: int, j: int|
        0 <= i < s.len() && 0 <= j < s.len() && i != j ==> !has_key(
            #[trigger] s[i],
            s[j].user_id,
            #[trigger] s[j].guild_id,
        )
}

/// Ids are unique and each guild has at most one row.
pub open spec fn settings_wf(g: Seq<GuildSettings>) -> bool {
    &&& forall|i: int, j: int|
        0 <= i < g.len() && 0 <= j < g.len() && i != j ==> (#[trigger] g[i]).id != (#[trigger] g[j]).id
    &&& forall|i: int, j: int|
        0 <= i < g.len() && 0 <= j < g.len() && i != j ==> (#[trigger] g[i]).guild_id != (
        #[trigger] g[j]).guild_id
}

/// The announcement channel configured for `guild_id`, if any.
pub open spec fn channel_of(g: Seq<GuildSettings>, guild_id: i64) -> Option<i64> {
    if exists|i: int| 0 <= i < g.len() && (#[trigger] g[i]).guild_id == guild_id {
        g[choose|i: int| 0 <= i < g.len() && (#[trigger] g[i]).guild_id == guild_id].announcements_channel_id
    } else {
        None
    }
}

proof fn lemma_channel_of_at(g: Seq<GuildSettings>, i: int)
    requires
        settings_wf(g),
        0 <= i < g.len(),
    ensures
        channel_of(g, g[i].guild_id) == g[i].announcements_channel_id,
{
    let j = choose|j: int| 0 <= j < g.len() && (#[trigger] g[j]).guild_id == g[i].guild_id;
    assert(j == i);
}

proof fn lemma_channel_of_same(s: Seq<GuildSettings>, o: Seq<GuildSettings>, guild_id: i64, i: int)
    requires
        settings_wf(s),
        settings_wf(o),
        s.len() == o.len() || (s.len() == o.len() + 1 && i == o.len()),
        0 <= i < s.len(),
        s[i].guild_id != guild_id,
        forall|a: int| 0 <= a < o.len() && a != i ==> #[trigger] s[a] == o[a],
        i < o.len() ==> s[i].guild_id == o[i].guild_id,
    ensures
        channel_of(s, guild_id) == channel_of(o, guild_id),
{
    if exists|a: int| 0 <= a < o.len() && (#[trigger] o[a]).guild_id == guild_id {
        let a = choose|a: int| 0 <= a < o.len() && (#[trigger] o[a]).guild_id == guild_id;
        assert(s[a] == o[a]);
        lemma_channel_of_at(s, a);
        lemma_channel_of_at(o, a);
    } else {
        assert forall|a: int| 0 <= a < s.len() implies (#[trigger] s[a]).guild_id != guild_id by {
            if a != i {
                assert(s[a] == o[a]);
            }
        }
    }
}

pub(crate) proof fn lemma_filter_step<A>(s: Seq<A>, k: int, pred: spec_fn(A) -> bool)
    requires
        0 <= k < s.len(),
    ensures
        s.subrange(0, k + 1).filter(pred) == if pred(s[k]) {
            s.subrange(0, k).filter(pred).push(s[k])
        } else {
            s.subrange(0, k).filter(pred)
        },
{
    reveal(Seq::filter);
    assert(s.subrange(0, k + 1).drop_last() =~= s.subrange(0, k));
}


fn contains_id(ids: &Vec<i32>, id: i32) -> (r: bool)
    ensures
        r == ids@.contains(id),
{
    let mut i: usize = 0;
    while i < ids.len()
        invariant
            i <= ids@.len(),
            forall|j: int| 0 <= j < i ==> ids@[j] != id,
        decreases ids@.len() - i,
    {
        if ids[i] == id {
            return true;
        }
        i = i + 1;
    }
    false
}

/// A condition on birthday rows that the store can select by.
pub(crate) enum RowQuery {
    InGuild(i64),
    DueOn(Date),
    StaleOn(Date),
}

pub(crate) open spec fn query_holds(q: RowQuery, b: Birthday) -> bool {
    match q {
        RowQuery::InGuild(g) => b.guild_id == g,
        RowQuery::DueOn(today) => is_due(b, today),
        RowQuery::StaleOn(today) => is_stale(b, today),
    }
}

pub(crate) fn query_matches(q: &RowQuery, b: &Birthday) -> (r: bool)
    ensures
        r == query_holds(*q, *b),
{
    match q {
        RowQuery::InGuild(g) => b.guild_id == *g,
        RowQuery::DueOn(today) => b.date.month == today.month && b.date.day == today.day
            && !b.announced_this_year,
        RowQuery::StaleOn(today) => b.announced_this_year && !(b.date.month == today.month
            && b.date.day == today.day),
    }
}

/// The rows of `rows` that satisfy `q`, in their order.
pub(crate) fn select_rows(rows: &Vec<Birthday>, q: &RowQuery, pred: Ghost<spec_fn(Birthday) -> bool>) -> (r: Vec<Birthday>)
    requires
        forall|b: Birthday| #[trigger] pred@(b) == query_holds(*q, b),
    ensures
        r@ == rows@.filter(pred@),
{
    let mut out: Vec<Birthday> = Vec::new();
    let mut i: usize = 0;
    while i < rows.len()
        invariant
            i <= rows@.len(),
            forall|b: Birthday| #[trigger] pred@(b) == query_holds(*q, b),
            out@ == rows@.subrange(0, i as int).filter(pred@),
        decreases rows@.len() - i,
    {
        proof { lemma_filter_step(rows@, i as int, pred@); }
        let b = rows[i];
        if query_matches(q, &b) {
            out.push(b);
        }
        i = i + 1;
    }
    proof {
        assert(rows@.subrange(0, i as int) =~= rows@);
    }
    out
}

/// Marking the same ids announced a second time changes nothing.
pub proof fn lemma_mark_announced_idempotent(s: Seq<Birthday>, ids: Set<i32>)
    ensures
        mark_announced(mark_announced(s, ids), ids) == mark_announced(s, ids),
{
    assert(mark_announced(mark_announced(s, ids), ids) =~= mark_announced(s, ids));
}

/// Birthday rows and guild settings, with the invariants of `wf`.
pub struct BirthdayStore {
    birthdays: Vec<Birthday>,
    guild_settings: Vec<GuildSettings>,
    next_birthday_id: i32,
    next_settings_id: i32,
}

impl BirthdayStore {
    pub closed spec fn records(&self) -> Seq<Birthday> {
        self.birthdays@
    }

    pub closed spec fn settings(&self) -> Seq<GuildSettings> {
        self.guild_settings@
    }

    /// The identity that the next new birthday row gets.
    pub closed spec fn next_birthday_id(&self) -> int {
        self.next_birthday_id as int
    }

    /// The identity that the next new settings row gets.
    pub closed spec fn next_settings_id(&self) -> int {
        self.next_settings_id as int
    }

    pub open spec fn wf(&self) -> bool {
        &&& records_wf(self.records())
        &&& settings_wf(self.settings())
        &&& 1 <= self.next_birthday_id() <= i32::MAX
        &&& 1 <= self.next_settings_id() <= i32::MAX
        &&& forall|i: int|
            0 <= i < self.records().len() ==> (#[trigger] self.records()[i]).id
                < self.next_birthday_id()
        &&& forall|i: int|
            0 <= i < self.settings().len() ==> (#[trigger] self.settings()[i]).id
                < self.next_settings_id()
    }

    /// An empty store.
    pub fn new() -> (r: BirthdayStore)
        ensures
            r.wf(),
            r.records() == Seq::<Birthday>::empty(),
            r.settings() == Seq::<GuildSettings>::empty(),
            r.next_birthday_id() == 1,
            r.next_settings_id() == 1,
    {
        BirthdayStore {
            birthdays: Vec::new(),
            guild_settings: Vec::new(),
            next_birthday_id: 1,
            next_settings_id: 1,
        }
    }

    fn find_birthday(&self, user_id: i64, guild_id: i64) -> (r: Option<usize>)
        ensures
            match r {
                Some(i) => i < self.records().len() && has_key(self.records()[i as int], user_id, guild_id),
                None => forall|i: int|
                    0 <= i < self.records().len() ==> !has_key(#[trigger] self.records()[i], user_id, guild_id),
            },
    {
        let mut i: usize = 0;
        while i < self.birthdays.len()
            invariant
                i <= self.birthdays@.len(),
                forall|j: int| 0 <= j < i ==> !has_key(#[trigger] self.birthdays@[j], user_id, guild_id),
            decreases self.birthdays@.len() - i,
        {
            if self.birthdays[i].user_id == user_id && self.birthdays[i].guild_id == guild_id {
                return Some(i);
            }
            i = i + 1;
        }
        None
    }

    /// Sets the birthday of `user_id` in `guild_id`. An existing row keeps its
    /// identity and takes the new date; either way the row is left not yet
    /// announced, so a birthday set again is greeted again.
    pub fn insert_birthday(&mut self, user_id: i64, guild_id: i64, date: Date) -> (r: Result<(), StoreError>)
        requires
            old(self).wf(),
            date.wf(),
        ensures
            final(self).wf(),
            final(self).settings() == old(self).settings(),
            final(self).next_settings_id() == old(self).next_settings_id(),
            (exists|i: int| 0 <= i < old(self).records().len() && has_key(#[trigger] old(self).records()[i], user_id, guild_id)) ==> {
                &&& r is Ok
                &&& final(self).next_birthday_id() == old(self).next_birthday_id()
                &&& exists|i: int|
                    0 <= i < old(self).records().len() && has_key(#[trigger] old(self).records()[i], user_id, guild_id)
                        && final(self).records() == old(self).records().update(
                        i,
                        Birthday { date, announced_this_year: false, ..old(self).records()[i] },
                    )
            },
            (forall|i: int| 0 <= i < old(self).records().len() ==> !has_key(#[trigger] old(self).records()[i], user_id, guild_id)) ==> {
                if old(self).next_birthday_id() < i32::MAX {
                    &&& r is Ok
                    &&& final(self).next_birthday_id() == old(self).next_birthday_id() + 1
                    &&& final(self).records() == old(self).records().push(
                        Birthday {
                            id: old(self).next_birthday_id() as i32,
                            user_id,
                            guild_id,
                            date,
                            announced_this_year: false,
                        },
                    )
                } else {
                    &&& r == Err::<(), StoreError>(StoreError::IdsExhausted)
                    &&& final(self).records() == old(self).records()
                    &&& final(self).next_birthday_id() == old(self).next_birthday_id()
                }
            },
    {
        match self.find_birthday(user_id, guild_id) {
            Some(i) => {
                let existing = self.birthdays[i];
                let updated = Birthday { date, announced_this_year: false, ..existing };
                self.birthdays.set(i, updated);
                proof {
                    let s = self.birthdays@;
                    let o = old(self).birthdays@;
                    assert forall|a: int| 0 <= a < s.len() implies s[a].id == o[a].id && s[a].user_id == o[a].user_id
                        && s[a].guild_id == o[a].guild_id by {}
                    assert(records_wf(s));
                }
                Ok(())
            },
            None => {
                if self.next_birthday_id == i32::MAX {
                    return Err(StoreError::IdsExhausted);
                }
                let new_birthday = NewBirthday { user_id, guild_id, date, announced_this_year: false };
                let row = new_birthday.with_id(self.next_birthday_id);
                self.birthdays.push(row);
                self.next_birthday_id = self.next_birthday_id + 1;
                proof {
                    let s = self.birthdays@;
                    let o = old(self).birthdays@;
                    assert forall|a: int| 0 <= a < o.len() implies s[a] == o[a] by {}
                    assert(records_wf(s));
                }
                Ok(())
            },
        }
    }

    /// The birthday of `user_id` in `guild_id`, if one is set.
    pub fn get_birthday(&self, user_id: i64, guild_id: i64) -> (r: Option<Birthday>)
        requires
            self.wf(),
        ensures
            match r {
                Some(b) => has_key(b, user_id, guild_id) && self.records().contains(b),
                None => forall|i: int|
                    0 <= i < self.records().len() ==> !has_key(#[trigger] self.records()[i], user_id, guild_id),
            },
    {
        match self.find_birthday(user_id, guild_id) {
            Some(i) => Some(self.birthdays[i]),
            None => None,
        }
    }

    /// Removes the birthday of `birthday`'s user in `birthday`'s guild.
    pub fn delete_birthday(&mut self, birthday: &Birthday)
        requires
            old(self).wf(),
        ensures
            final(self).wf(),
            final(self).settings() == old(self).settings(),
            final(self).next_birthday_id() == old(self).next_birthday_id(),
            final(self).next_settings_id() == old(self).next_settings_id(),
            final(self).records() == old(self).records().filter(
                |b: Birthday| !has_key(b, birthday.user_id, birthday.guild_id),
            ),
    {
        let ghost pred: spec_fn(Birthday) -> bool = |x: Birthday| !has_key(x, birthday.user_id, birthday.guild_id);
        let ghost mut idx: Seq<int> = Seq::empty();
        let mut kept: Vec<Birthday> = Vec::new();
        let mut i: usize = 0;
        while i < self.birthdays.len()
            invariant
                i <= self.birthdays@.len(),
                self.birthdays@ == old(self).birthdays@,
                pred == (|x: Birthday| !has_key(x, birthday.user_id, birthday.guild_id)),
                kept@ == self.birthdays@.subrange(0, i as int).filter(pred),
                idx.len() == kept@.len(),
                forall|a: int| 0 <= a < idx.len() ==> 0 <= #[trigger] idx[a] < i && kept@[a] == self.birthdays@[idx[a]],
                forall|a: int, b: int| 0 <= a < b < idx.len() ==> #[trigger] idx[a] < #[trigger] idx[b],
            decreases self.birthdays@.len() - i,
        {
            proof { lemma_filter_step(self.birthdays@, i as int, pred); }
            let b = self.birthdays[i];
            assert(pred(b) == !(b.user_id == birthday.user_id && b.guild_id == birthday.guild_id));
            if !(b.user_id == birthday.user_id && b.guild_id == birthday.guild_id) {
                kept.push(b);
                proof { idx = idx.push(i as int); }
            }
            i = i + 1;
        }
        proof {
            assert(self.birthdays@.subrange(0, i as int) =~= self.birthdays@);
        }
        let ghost o = self.birthdays@;
        self.birthdays = kept;
        proof {
            let s = self.birthdays@;
            assert forall|a: int, b: int| 0 <= a < s.len() && 0 <= b < s.len() && a != b implies
                (#[trigger] s[a]).id != (#[trigger] s[b]).id && !has_key(s[a], s[b].user_id, s[b].guild_id) by {
                if a < b { assert(idx[a] < idx[b]); } else { assert(idx[b] < idx[a]); }
            }
            assert forall|a: int| 0 <= a < s.len() implies (#[trigger] s[a]).date.wf() && s[a].id < self.next_birthday_id by {
                assert(s[a] == o[idx[a]]);
            }
        }
    }

    /// Every birthday set in `guild_id`, in store order.
    pub fn list_birthdays(&self, guild_id: i64) -> (r: Vec<Birthday>)
        ensures
            r@ == in_guild(self.records(), guild_id),
    {
        select_rows(&self.birthdays, &RowQuery::InGuild(guild_id), Ghost(|b: Birthday| b.guild_id == guild_id))
    }

    /// Rows whose month and day are today's and that were not announced yet.
    pub fn get_birthdays_today(&self, today: &Date) -> (r: Vec<Birthday>)
        ensures
            r@ == todays_unannounced(self.records(), *today),
    {
        select_rows(&self.birthdays, &RowQuery::DueOn(*today), Ghost(|b: Birthday| is_due(b, *today)))
    }

    /// Rows announced in an earlier cycle whose day is not today.
    pub fn find_stale_announced_flags(&self, today: &Date) -> (r: Vec<Birthday>)
        ensures
            r@ == stale_announced(self.records(), *today),
    {
        select_rows(&self.birthdays, &RowQuery::StaleOn(*today), Ghost(|b: Birthday| is_stale(b, *today)))
    }

    fn set_announced(&mut self, ids: &Vec<i32>, value: bool)
        requires
            old(self).wf(),
        ensures
            final(self).wf(),
            final(self).settings() == old(self).settings(),
            final(self).next_birthday_id() == old(self).next_birthday_id(),
            final(self).next_settings_id() == old(self).next_settings_id(),
            final(self).records() == old(self).records().map_values(
                |b: Birthday| flagged(b, ids@.to_set(), value),
            ),
    {
        let ghost o = self.birthdays@;
        let mut i: usize = 0;
        while i < self.birthdays.len()
            invariant
                i <= self.birthdays@.len(),
                self.birthdays@.len() == o.len(),
                o == old(self).birthdays@,
                self.guild_settings == old(self).guild_settings,
                self.next_birthday_id == old(self).next_birthday_id,
                self.next_settings_id == old(self).next_settings_id,
                forall|j: int| 0 <= j < i ==> #[trigger] self.birthdays@[j] == flagged(o[j], ids@.to_set(), value),
                forall|j: int| i <= j < o.len() ==> #[trigger] self.birthdays@[j] == o[j],
            decreases self.birthdays@.len() - i,
        {
            let b = self.birthdays[i];
            if contains_id(ids, b.id) {
                self.birthdays.set(i, Birthday { announced_this_year: value, ..b });
            }
            i = i + 1;
        }
        proof {
            let s = self.birthdays@;
            assert(s =~= o.map_values(|b: Birthday| flagged(b, ids@.to_set(), value)));
            assert forall|a: int| 0 <= a < s.len() implies s[a].id == o[a].id && s[a].user_id == o[a].user_id
                && s[a].guild_id == o[a].guild_id && s[a].date == o[a].date by {}
        }
    }

    /// Marks the rows with the given ids as announced this year; other rows are
    /// left as they are, and an empty list changes nothing.
    pub fn update_announced_value(&mut self, ids: &Vec<i32>)
        requires
            old(self).wf(),
        ensures
            final(self).wf(),
            final(self).settings() == old(self).settings(),
            final(self).next_birthday_id() == old(self).next_birthday_id(),
            final(self).next_settings_id() == old(self).next_settings_id(),
            final(self).records() == mark_announced(old(self).records(), ids@.to_set()),
    {
        self.set_announced(ids, true);
    }

    /// Clears the flag of every row announced in an earlier cycle: every row
    /// whose flag is set and whose month and day are not today's.
    pub fn reset_announced_flags(&mut self, today: &Date)
        requires
            old(self).wf(),
        ensures
            final(self).wf(),
            final(self).settings() == old(self).settings(),
            final(self).next_birthday_id() == old(self).next_birthday_id(),
            final(self).next_settings_id() == old(self).next_settings_id(),
            final(self).records() == reset_stale(old(self).records(), *today),
    {
        let stale = self.find_stale_announced_flags(today);
        let mut ids: Vec<i32> = Vec::new();
        let mut i: usize = 0;
        while i < stale.len()
            invariant
                i <= stale@.len(),
                ids@.len() == i,
                forall|j: int| 0 <= j < i ==> #[trigger] ids@[j] == stale@[j].id,
            decreases stale@.len() - i,
        {
            ids.push(stale[i].id);
            i = i + 1;
        }
        let ghost o = self.records();
        let ghost pred = |b: Birthday| is_stale(b, *today);
        self.set_announced(&ids, false);
        proof {
            assert forall|k: int| 0 <= k < o.len() implies ids@.to_set().contains(#[trigger] o[k].id)
                == is_stale(o[k], *today) by {
                if is_stale(o[k], *today) {
                    o.lemma_filter_contains(pred, k);
                    let j = choose|j: int| 0 <= j < stale@.len() && stale@[j] == o[k];
                    assert(ids@[j] == o[k].id);
                }
                if ids@.contains(o[k].id) {
                    let j = choose|j: int| 0 <= j < ids@.len() && ids@[j] == o[k].id;
                    assert(stale@.contains(stale@[j]));
                    o.lemma_filter_pred(pred, j);
                    o.lemma_filter_contains_rev(pred, stale@[j]);
                    let m = choose|m: int| 0 <= m < o.len() && o[m] == stale@[j];
                    assert(m == k);
                }
            }
            assert(self.records() =~= reset_stale(o, *today));
        }
    }

    fn find_settings(&self, guild_id: i64) -> (r: Option<usize>)
        ensures
            match r {
                Some(i) => i < self.settings().len() && self.settings()[i as int].guild_id == guild_id,
                None => forall|i: int|
                    0 <= i < self.settings().len() ==> (#[trigger] self.settings()[i]).guild_id != guild_id,
            },
    {
        let mut i: usize = 0;
        while i < self.guild_settings.len()
            invariant
                i <= self.guild_settings@.len(),
                forall|j: int| 0 <= j < i ==> (#[trigger] self.guild_settings@[j]).guild_id != guild_id,
            decreases self.guild_settings@.len() - i,
        {
            if self.guild_settings[i].guild_id == guild_id {
                return Some(i);
            }
            i = i + 1;
        }
        None
    }

    /// Sets the announcement channel of `guild_id`, replacing an earlier one.
    pub fn insert_guild_settings(&mut self, guild_id: i64, announcements_channel_id: Option<i64>) -> (r: Result<(), StoreError>)
        requires
            old(self).wf(),
        ensures
            final(self).wf(),
            final(self).records() == old(self).records(),
            final(self).next_birthday_id() == old(self).next_birthday_id(),
            r is Ok <==> (exists|i: int|
                0 <= i < old(self).settings().len() && (#[trigger] old(self).settings()[i]).guild_id
                    == guild_id) || old(self).next_settings_id() < i32::MAX,
            r is Ok ==> channel_of(final(self).settings(), guild_id) == announcements_channel_id,
            r is Ok ==> forall|g: i64| g != guild_id ==> channel_of(final(self).settings(), g) == channel_of(old(self).settings(), g),
            r is Err ==> r == Err::<(), StoreError>(StoreError::IdsExhausted) && final(self).settings() == old(self).settings(),
    {
        let ghost o = self.guild_settings@;
        match self.find_settings(guild_id) {
            Some(i) => {
                let existing = self.guild_settings[i];
                self.guild_settings.set(i, GuildSettings { announcements_channel_id, ..existing });
                proof {
                    let s = self.guild_settings@;
                    assert forall|a: int| 0 <= a < s.len() implies s[a].id == o[a].id && s[a].guild_id == o[a].guild_id by {}
                    assert(settings_wf(s));
                    lemma_channel_of_at(s, i as int);
                    assert forall|g: i64| g != guild_id implies channel_of(s, g) == channel_of(o, g) by {
                        lemma_channel_of_same(s, o, g, i as int);
                    }
                }
                Ok(())
            },
            None => {
                if self.next_settings_id == i32::MAX {
                    return Err(StoreError::IdsExhausted);
                }
                let new_settings = NewGuildSettings { guild_id, announcements_channel_id };
                let row = new_settings.with_id(self.next_settings_id);
                self.guild_settings.push(row);
                self.next_settings_id = self.next_settings_id + 1;
                proof {
                    let s = self.guild_settings@;
                    assert forall|a: int| 0 <= a < o.len() implies s[a] == o[a] by {}
                    assert(settings_wf(s));
                    lemma_channel_of_at(s, o.len() as int);
                    assert forall|g: i64| g != guild_id implies channel_of(s, g) == channel_of(o, g) by {
                        lemma_channel_of_same(s, o, g, o.len() as int);
                    }
                }
                Ok(())
            },
        }
    }

    /// The channel where greetings for `guild_id` go; none where the guild has
    /// no settings or no channel set.
    pub fn get_announcement_channel(&self, guild_id: i64) -> (r: Option<i64>)
        requires
            self.wf(),
        ensures
            r == channel_of(self.settings(), guild_id),
    {
        match self.find_settings(guild_id) {
            Some(i) => {
                proof { lemma_channel_of_at(self.guild_settings@, i as int); }
                self.guild_settings[i].announcements_channel_id
            },
            None => None,
        }
    }

    /// Every birthday row, in store order.
    pub fn all_birthdays(&self) -> (r: Vec<Birthday>)
        ensures
            r@ == self.records(),
    {
        let mut out: Vec<Birthday> = Vec::new();
        let mut i: usize = 0;
        while i < self.birthdays.len()
            invariant
                i <= self.birthdays@.len(),
                out@ == self.birthdays@.subrange(0, i as int),
            decreases self.birthdays@.len() - i,
        {
            out.push(self.birthdays[i]);
            i = i + 1;
            assert(out@ =~= self.birthdays@.subrange(0, i as int));
        }
        assert(out@ =~= self.birthdays@);
        out
    }

    /// Every guild settings row, in store order.
    pub fn all_guild_settings(&self) -> (r: Vec<GuildSettings>)
        ensures
            r@ == self.settings(),
    {
        let mut out: Vec<GuildSettings> = Vec::new();
        let mut i: usize = 0;
        while i < self.guild_settings.len()
            invariant
                i <= self.guild_settings@.len(),
                out@ == self.guild_settings@.subrange(0, i as int),
            decreases self.guild_settings@.len() - i,
        {
            out.push(self.guild_settings[i]);
            i = i + 1;
            assert(out@ =~= self.guild_settings@.subrange(0, i as int));
        }
        assert(out@ =~= self.guild_settings@);
        out
    }
}

} // verus!
