use vstd::prelude::*;
use vstd::string::*;

use crate::config::{override_spec, Config, Override};
use crate::output::{
    dedupe, dedupe_spec, entries_view, render, render_spec, EntryView, OutputEntry,
};
use crate::parser::{contains_callsign, info_view, parse_spec, CallsignParser, MemberInfo};
use crate::qrz::{display_name_spec, CallsignInfo, QrzClient};

verus! {

pub open spec fn opt_view(o: Option<String>) -> Option<Seq<char>> {
    match o {
        Some(s) => Some(s@),
        None => None,
    }
}

pub open spec fn candidates_view(c: Seq<Option<String>>) -> Seq<Option<Seq<char>>> {
    c.map_values(|o: Option<String>| opt_view(o))
}

/// The parse of the first candidate that holds a callsign, with that
/// candidate; when none does, no parse and the fallback.
pub open spec fn name_field_spec(c: Seq<Option<Seq<char>>>, fallback: Seq<char>) -> (
    Option<(Seq<char>, Seq<char>)>,
    Seq<char>,
)
    decreases c.len(),
{
    if c.len() == 0 {
        (None, fallback)
    } else if c[0] matches Some(s) && contains_callsign(s) {
        (parse_spec(c[0]->Some_0), c[0]->Some_0)
    } else {
        name_field_spec(c.drop_first(), fallback)
    }
}

/// The placeholder callsign of a member whose override sets none and whose
/// name holds none.
pub open spec fn unknown_callsign() -> Seq<char> {
    seq!['U', 'N', 'K', 'N', 'O', 'W', 'N']
}

pub open spec fn pick(first: Option<Seq<char>>, otherwise: Seq<char>) -> Seq<char> {
    match first {
        Some(x) => x,
        None => otherwise,
    }
}

/// The entry of a member: with an override, each field from the override,
/// else from the parse, else the default (`UNKNOWN` for the callsign, the
/// display string for the name); without one, the parse with the defaults,
/// and no entry when nothing parsed.
pub open spec fn resolve_spec(
    ov: Option<Override>,
    parsed: Option<(Seq<char>, Seq<char>)>,
    display: Seq<char>,
    suffix: Seq<char>,
    emoji: Seq<char>,
) -> Option<EntryView> {
    match ov {
        Some(o) => Some(
            EntryView {
                callsign: pick(
                    opt_view(o.callsign),
                    match parsed {
                        Some(p) => p.0,
                        None => unknown_callsign(),
                    },
                ),
                name: pick(
                    opt_view(o.name),
                    match parsed {
                        Some(p) => p.1,
                        None => display,
                    },
                ),
                suffix: pick(opt_view(o.suffix), suffix),
                emoji_separator: pick(opt_view(o.emoji_separator), emoji),
            },
        ),
        None => match parsed {
            Some(p) => Some(
                EntryView { callsign: p.0, name: p.1, suffix: suffix, emoji_separator: emoji },
            ),
            None => None,
        },
    }
}

/// The directory is asked for a member whose name parsed and whose override,
/// if any, sets no name.
pub open spec fn wants_lookup(ov: Option<Override>, parsed: Option<(Seq<char>, Seq<char>)>) -> bool {
    parsed is Some && (ov matches Some(o) ==> o.name is None)
}

/// The entry with its name replaced by the one a directory record offers;
/// unchanged when there is no record or it offers no name.
pub open spec fn refine_spec(e: EntryView, found: Option<CallsignInfo>) -> EntryView {
    match found {
        Some(info) => match display_name_spec(info) {
            Some(n) => EntryView { name: n, ..e },
            None => e,
        },
        None => e,
    }
}

/// A callsign set in an override is the entry's callsign, whether or not
/// the member's name parsed.
pub proof fn lemma_override_callsign_wins(
    o: Override,
    parsed: Option<(Seq<char>, Seq<char>)>,
    display: Seq<char>,
    suffix: Seq<char>,
    emoji: Seq<char>,
)
    requires
        o.callsign is Some,
    ensures
        resolve_spec(Some(o), parsed, display, suffix, emoji) matches Some(e) && e.callsign
            == o.callsign->Some_0@,
{
}


fn copy_opt(o: &Option<String>) -> (r: Option<String>)
    ensures
        opt_view(r) == opt_view(*o),
{
    match o {
        Some(s) => Some(s.clone()),
        None => None,
    }
}

fn pick_exec(first: &Option<String>, otherwise: String) -> (r: String)
    ensures
        r@ == pick(opt_view(*first), otherwise@),
{
    match first {
        Some(s) => s.clone(),
        None => otherwise,
    }
}

impl CallsignParser {
    /// The parse of the first present candidate that holds a callsign,
    /// paired with that candidate; when none does, `None` paired with
    /// `fallback`.
    pub fn resolve_name_field(&self, candidates: &Vec<Option<String>>, fallback: &str) -> (r: (
        Option<MemberInfo>,
        String,
    ))
        ensures
            (info_view(r.0), r.1@) == name_field_spec(candidates_view(candidates@), fallback@),
    {
        let ghost c = candidates_view(candidates@);
        let n = candidates.len();
        let mut k: usize = 0;
        assert(c.subrange(0, n as int) =~= c);
        while k < n
            invariant
                n == candidates.len(),
                k <= n,
                c == candidates_view(candidates@),
                name_field_spec(c.subrange(k as int, n as int), fallback@) == name_field_spec(
                    c,
                    fallback@,
                ),
            decreases n - k,
        {
            let ghost t = c.subrange(k as int, n as int);
            assert(t[0] == opt_view(candidates@[k as int]));
            if let Some(text) = &candidates[k] {
                if let Some(m) = self.parse(text.as_str()) {
                    return (Some(m), text.clone());
                }
            }
            assert(t.drop_first() =~= c.subrange(k + 1, n as int));
            k += 1;
        }
        (None, String::from_str(fallback))
    }
}

/// The entry of one member from its override, its parse, its display string
/// and the defaults of the list.
pub fn resolve_entry(
    ov: Option<&Override>,
    parsed: Option<MemberInfo>,
    display: &str,
    default_suffix: &String,
    default_emoji: &String,
) -> (r: Option<OutputEntry>)
    ensures
        match r {
            Some(e) => resolve_spec(
                match ov {
                    Some(o) => Some(*o),
                    None => None,
                },
                info_view(parsed),
                display@,
                default_suffix@,
                default_emoji@,
            ) == Some(e@),
            None => resolve_spec(
                match ov {
                    Some(o) => Some(*o),
                    None => None,
                },
                info_view(parsed),
                display@,
                default_suffix@,
                default_emoji@,
            ) is None,
        },
{
    proof {
        reveal_strlit("UNKNOWN");
    }
    match ov {
        Some(o) => {
            let (parsed_callsign, parsed_name) = match parsed {
                Some(p) => (p.callsign, p.name),
                None => {
                    let unknown = String::from_str("UNKNOWN");
                    assert(unknown@ =~= unknown_callsign());
                    (unknown, String::from_str(display))
                },
            };
            Some(
                OutputEntry {
                    callsign: pick_exec(&o.callsign, parsed_callsign),
                    name: pick_exec(&o.name, parsed_name),
                    suffix: pick_exec(&o.suffix, default_suffix.clone()),
                    emoji_separator: pick_exec(&o.emoji_separator, default_emoji.clone()),
                },
            )
        },
        None => match parsed {
            Some(p) => Some(
                OutputEntry {
                    callsign: p.callsign,
                    name: p.name,
                    suffix: default_suffix.clone(),
                    emoji_separator: default_emoji.clone(),
                },
            ),
            None => None,
        },
    }
}

/// The entry with the name that a directory record offers; a failed or
/// empty lookup (`None`) leaves it as it was.
pub fn apply_lookup(entry: OutputEntry, found: &Option<CallsignInfo>) -> (r: OutputEntry)
    ensures
        r@ == refine_spec(entry@, *found),
{
    match found {
        Some(info) => match QrzClient::get_display_name(info) {
            Some(n) => OutputEntry { name: n, ..entry },
            None => entry,
        },
        None => entry,
    }
}


/// A member of the guild as the membership source reports it.
pub struct Member {
    pub id: String,
    pub nickname: Option<String>,
    pub global_name: Option<String>,
    pub username: String,
}

/// The strings a member's callsign is looked for in, first choice first.
pub open spec fn member_candidates(m: Member) -> Seq<Option<Seq<char>>> {
    seq![opt_view(m.nickname), opt_view(m.global_name), Some(m.username@)]
}

/// The member's entry before any lookup, and whether the directory is asked.
pub open spec fn member_plan(config: Config, m: Member) -> (Option<EntryView>, bool) {
    let (parsed, display) = name_field_spec(member_candidates(m), m.username@);
    let ov = override_spec(config.overrides@, m.id@);
    (
        resolve_spec(
            ov,
            parsed,
            display,
            config.output.default_suffix@,
            config.output.emoji_separator@,
        ),
        wants_lookup(ov, parsed),
    )
}

/// The member's entry once the directory record `found` is applied.
pub open spec fn member_entry_spec(config: Config, m: Member, found: Option<CallsignInfo>) -> Option<
    EntryView,
> {
    match member_plan(config, m).0 {
        Some(e) => Some(
            if member_plan(config, m).1 {
                refine_spec(e, found)
            } else {
                e
            },
        ),
        None => None,
    }
}

/// The entries of a snapshot in its order, leaving out the bot itself and
/// members without an entry.
pub open spec fn collect_spec(
    config: Config,
    ms: Seq<Member>,
    fs: Seq<Option<CallsignInfo>>,
    bot: Seq<char>,
) -> Seq<EntryView>
    decreases ms.len(),
{
    if ms.len() == 0 {
        seq![]
    } else {
        let rest = collect_spec(config, ms.drop_last(), fs.drop_last(), bot);
        if ms.last().id@ == bot {
            rest
        } else {
            match member_entry_spec(config, ms.last(), fs.last()) {
                Some(e) => rest.push(e),
                None => rest,
            }
        }
    }
}

/// The published member list of a snapshot.
pub open spec fn member_list_spec(
    config: Config,
    ms: Seq<Member>,
    fs: Seq<Option<CallsignInfo>>,
    bot: Seq<char>,
) -> Seq<char> {
    render_spec(dedupe_spec(collect_spec(config, ms, fs, bot)), opt_view(config.output.title))
}

pub open spec fn entry_view(e: Option<OutputEntry>) -> Option<EntryView> {
    match e {
        Some(e) => Some(e@),
        None => None,
    }
}

/// Running the pipeline twice on the same snapshot, configuration and
/// directory answers gives the same text.
pub proof fn lemma_member_list_deterministic(
    c1: Config,
    c2: Config,
    ms1: Seq<Member>,
    ms2: Seq<Member>,
    fs1: Seq<Option<CallsignInfo>>,
    fs2: Seq<Option<CallsignInfo>>,
    bot: Seq<char>,
)
    requires
        c1 == c2,
        ms1 == ms2,
        fs1 == fs2,
    ensures
        member_list_spec(c1, ms1, fs1, bot) == member_list_spec(c2, ms2, fs2, bot),
{
}

/// A failed lookup leaves the entry, and so its name, as it was computed
/// before the lookup; the member still has its entry.
pub proof fn lemma_failed_lookup_keeps_name(config: Config, m: Member, e: EntryView)
    ensures
        refine_spec(e, None) == e,
        member_entry_spec(config, m, None) == member_plan(config, m).0,
{
}

/// The member's candidate strings: nickname, global name, account name.
pub fn member_candidate_list(m: &Member) -> (r: Vec<Option<String>>)
    ensures
        candidates_view(r@) == member_candidates(*m),
{
    let mut v: Vec<Option<String>> = Vec::new();
    v.push(copy_opt(&m.nickname));
    v.push(copy_opt(&m.global_name));
    v.push(Some(m.username.clone()));
    assert(candidates_view(v@) =~= member_candidates(*m));
    v
}

/// The member's entry before any lookup, and the callsign to look up in the
/// directory when one is to be asked.
pub fn resolve_member(config: &Config, parser: &CallsignParser, member: &Member) -> (r: (
    Option<OutputEntry>,
    Option<String>,
))
    ensures
        entry_view(r.0) == member_plan(*config, *member).0,
        r.1 is Some <==> member_plan(*config, *member).1,
        r.1 matches Some(c) ==> r.0 matches Some(e) && c@ == e.callsign@,
{
    let candidates = member_candidate_list(member);
    let (parsed, display) = parser.resolve_name_field(&candidates, member.username.as_str());
    let ov = config.get_override(member.id.as_str());
    let lookup = parsed.is_some() && match ov {
        Some(o) => o.name.is_none(),
        None => true,
    };
    let entry = resolve_entry(
        ov,
        parsed,
        display.as_str(),
        &config.output.default_suffix,
        &config.output.emoji_separator,
    );
    match entry {
        Some(e) => {
            if lookup {
                let c = e.callsign.clone();
                (Some(e), Some(c))
            } else {
                (Some(e), None)
            }
        },
        None => (None, None),
    }
}

/// The list text of a set of entries, with the number of entries left out
/// as repeats of an earlier callsign.
pub fn build_member_list(entries: Vec<OutputEntry>, title: Option<&str>) -> (r: (String, usize))
    ensures
        r.0@ == render_spec(
            dedupe_spec(entries_view(entries@)),
            match title {
                None => None,
                Some(t) => Some(t@),
            },
        ),
        r.1 == entries.len() - dedupe_spec(entries_view(entries@)).len(),
{
    let (unique, dropped) = dedupe(entries);
    (render(unique, title), dropped)
}

/// The member list of a snapshot: each member but the bot resolved, the
/// directory record `found[k]` applied to member `k` where a lookup is due
/// (`None` for no record or a failed lookup), repeats removed, rendered.
pub fn generate_member_list(
    config: &Config,
    parser: &CallsignParser,
    members: &Vec<Member>,
    bot_id: &str,
    found: &Vec<Option<CallsignInfo>>,
) -> (r: (String, usize))
    requires
        found.len() == members.len(),
    ensures
        r.0@ == member_list_spec(*config, members@, found@, bot_id@),
        r.1 == collect_spec(*config, members@, found@, bot_id@).len() - dedupe_spec(
            collect_spec(*config, members@, found@, bot_id@),
        ).len(),
{
    let n = members.len();
    let mut entries: Vec<OutputEntry> = Vec::new();
    let bot = String::from_str(bot_id);
    let mut k: usize = 0;
    assert(members@.subrange(0, 0) =~= Seq::<Member>::empty());
    assert(entries_view(entries@) =~= Seq::<EntryView>::empty());
    while k < n
        invariant
            n == members.len(),
            n == found.len(),
            k <= n,
            bot@ == bot_id@,
            entries_view(entries@) == collect_spec(
                *config,
                members@.subrange(0, k as int),
                found@.subrange(0, k as int),
                bot_id@,
            ),
        decreases n - k,
    {
        let m = &members[k];
        let ghost before = entries_view(entries@);
        proof {
            assert(members@.subrange(0, k + 1).drop_last() =~= members@.subrange(0, k as int));
            assert(found@.subrange(0, k + 1).drop_last() =~= found@.subrange(0, k as int));
            assert(members@.subrange(0, k + 1).last() == *m);
            assert(found@.subrange(0, k + 1).last() == found@[k as int]);
        }
        if m.id != bot {
            let (entry, lookup) = resolve_member(config, parser, m);
            if let Some(e) = entry {
                let e = if lookup.is_some() {
                    apply_lookup(e, &found[k])
                } else {
                    e
                };
                entries.push(e);
                assert(entries_view(entries@) =~= before.push(e@));
            }
        }
        k += 1;
    }
    assert(members@.subrange(0, n as int) =~= members@);
    assert(found@.subrange(0, n as int) =~= found@);
    let title = match &config.output.title {
        Some(t) => Some(t.as_str()),
        None => None,
    };
    build_member_list(entries, title)
}

} // verus!
