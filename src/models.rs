//! The rows kept by the store.
use crate::date::Date;
use vstd::prelude::*;

verus! {

/// A member's birthday within one guild.
#[derive(Clone, Copy, Debug, PartialEq, Eq, Structural)]
pub struct Birthday {
    pub id: i32,
    pub user_id: i64,
    pub guild_id: i64,
    pub date: Date,
    /// Set once this year's greeting went out; cleared once the day has passed.
    pub announced_this_year: bool,
}

/// A birthday row before the store gives it an identity.
#[derive(Clone, Copy, Debug, PartialEq, Eq, Structural)]
pub struct NewBirthday {
    pub user_id: i64,
    pub guild_id: i64,
    pub date: Date,
    pub announced_this_year: bool,
}

/// Per-guild configuration.
#[derive(Clone, Copy, Debug, PartialEq, Eq, Structural)]
pub struct GuildSettings {
    pub id: i32,
    pub guild_id: i64,
    /// Where greetings go; none means the guild gets no announcements.
    pub announcements_channel_id: Option<i64>,
}

/// A guild settings row before the store gives it an identity.
#[derive(Clone, Copy, Debug, PartialEq, Eq, Structural)]
pub struct NewGuildSettings {
    pub guild_id: i64,
    pub announcements_channel_id: Option<i64>,
}

impl NewBirthday {
    /// The row that this becomes under identity `id`.
    pub fn with_id(self, id: i32) -> (r: Birthday)
        ensures
            r == (Birthday {
                id,
                user_id: self.user_id,
                guild_id: self.guild_id,
                date: self.date,
                announced_this_year: self.announced_this_year,
            }),
    {
        Birthday {
            id,
            user_id: self.user_id,
            guild_id: self.guild_id,
            date: self.date,
            announced_this_year: self.announced_this_year,
        }
    }
}

impl NewGuildSettings {
    /// The row that this becomes under identity `id`.
    pub fn with_id(self, id: i32) -> (r: GuildSettings)
        ensures
            r == (GuildSettings {
                id,
                guild_id: self.guild_id,
                announcements_channel_id: self.announcements_channel_id,
            }),
    {
        GuildSettings {
            id,
            guild_id: self.guild_id,
            announcements_channel_id: self.announcements_channel_id,
        }
    }
}

} // verus!
