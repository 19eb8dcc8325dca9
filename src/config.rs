use vstd::prelude::*;
use vstd::string::*;

verus! {

/// The settings of one bot: which guild it reads, where and how it writes the
/// list, and the per-member overrides keyed by member id.
pub struct Config {
    pub discord: DiscordConfig,
    pub output: OutputConfig,
    pub overrides: Vec<(String, Override)>,
    pub qrz: Option<QrzConfig>,
}

pub struct DiscordConfig {
    pub token: String,
    pub guild_id: u64,
    pub bot_nickname: Option<String>,
}

pub struct OutputConfig {
    pub file_path: String,
    pub default_suffix: String,
    pub emoji_separator: String,
    pub title: Option<String>,
}

/// Credentials of the callsign directory.
pub struct QrzConfig {
    pub username: String,
    pub password: String,
}

/// Fields set by hand for one member; each one that is set replaces the
/// computed value.
#[derive(Debug, Clone)]
pub struct Override {
    pub callsign: Option<String>,
    pub name: Option<String>,
    pub suffix: Option<String>,
    pub emoji_separator: Option<String>,
}

/// The separator used when the configuration names none: a radio emoji.
pub fn default_emoji_separator() -> (r: String)
    ensures
        r@ == seq!['\u{1F4FB}'],
{
    proof {
        reveal_strlit("\u{1F4FB}");
    }
    String::from_str("\u{1F4FB}")
}

/// `k` is the first position of `overrides` whose key is `id`.
pub open spec fn first_override(overrides: Seq<(String, Override)>, id: Seq<char>, k: int) -> bool {
    &&& 0 <= k < overrides.len()
    &&& overrides[k].0@ == id
    &&& forall|m: int| 0 <= m < k ==> (#[trigger] overrides[m]).0@ != id
}

pub open spec fn has_override(overrides: Seq<(String, Override)>, id: Seq<char>) -> bool {
    exists|k: int| 0 <= k < overrides.len() && (#[trigger] overrides[k]).0@ == id
}

/// The override of member `id`: the first one under that key.
pub open spec fn override_spec(overrides: Seq<(String, Override)>, id: Seq<char>) -> Option<Override> {
    if has_override(overrides, id) {
        Some(overrides[choose|k: int| first_override(overrides, id, k)].1)
    } else {
        None
    }
}

impl Config {
    /// The override configured for the member with id `discord_id`, if any.
    pub fn get_override(&self, discord_id: &str) -> (r: Option<&Override>)
        ensures
            r is None <==> !has_override(self.overrides@, discord_id@),
            r matches Some(o) ==> override_spec(self.overrides@, discord_id@) == Some(*o),
    {
        let id = String::from_str(discord_id);
        let mut k: usize = 0;
        while k < self.overrides.len()
            invariant
                k <= self.overrides.len(),
                id@ == discord_id@,
                forall|m: int| 0 <= m < k ==> (#[trigger] self.overrides@[m]).0@ != discord_id@,
            decreases self.overrides.len() - k,
        {
            let entry = &self.overrides[k];
            if entry.0 == id {
                assert(first_override(self.overrides@, discord_id@, k as int));
                assert forall|a: int, b: int|
                    first_override(self.overrides@, discord_id@, a) && first_override(
                        self.overrides@,
                        discord_id@,
                        b,
                    ) implies a == b by {
                    if a < b {
                        assert(self.overrides@[a].0@ != discord_id@);
                    } else if b < a {
                        assert(self.overrides@[b].0@ != discord_id@);
                    }
                }
                return Some(&entry.1);
            }
            assert(self.overrides@[k as int].0@ != discord_id@);
            k += 1;
        }
        None
    }
}

} // verus!
