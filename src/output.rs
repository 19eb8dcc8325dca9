use vstd::prelude::*;
use vstd::string::*;

use crate::parser::chars_of;

verus! {

/// One line of the member list.
#[derive(Debug, Clone)]
pub struct OutputEntry {
    pub callsign: String,
    pub name: String,
    pub suffix: String,
    pub emoji_separator: String,
}

/// An entry's fields as character sequences.
pub struct EntryView {
    pub callsign: Seq<char>,
    pub name: Seq<char>,
    pub suffix: Seq<char>,
    pub emoji_separator: Seq<char>,
}

impl View for OutputEntry {
    type V = EntryView;

    open spec fn view(&self) -> EntryView {
        EntryView {
            callsign: self.callsign@,
            name: self.name@,
            suffix: self.suffix@,
            emoji_separator: self.emoji_separator@,
        }
    }
}

pub open spec fn entries_view(s: Seq<OutputEntry>) -> Seq<EntryView> {
    s.map_values(|e: OutputEntry| e@)
}

/// `a` comes before `b` or equals it, comparing character by character; this
/// is the byte order of their UTF-8 encodings.
pub open spec fn key_le(a: Seq<char>, b: Seq<char>) -> bool
    decreases a.len(),
{
    if a.len() == 0 {
        true
    } else if b.len() == 0 {
        false
    } else if a[0] != b[0] {
        a[0] < b[0]
    } else {
        key_le(a.drop_first(), b.drop_first())
    }
}

/// `x` put into `s` after every entry whose callsign is not greater than its own.
pub open spec fn insert_sorted(s: Seq<EntryView>, x: EntryView) -> Seq<EntryView>
    decreases s.len(),
{
    if s.len() == 0 {
        seq![x]
    } else if key_le(s.last().callsign, x.callsign) {
        s.push(x)
    } else {
        insert_sorted(s.drop_last(), x).push(s.last())
    }
}

/// `s` in ascending order of callsign; entries with equal callsigns keep their order.
pub open spec fn sort_by_callsign(s: Seq<EntryView>) -> Seq<EntryView>
    decreases s.len(),
{
    if s.len() == 0 {
        s
    } else {
        insert_sorted(sort_by_callsign(s.drop_last()), s.last())
    }
}

/// Any two keys are ordered one way or the other.
pub proof fn lemma_key_le_total(a: Seq<char>, b: Seq<char>)
    ensures
        key_le(a, b) || key_le(b, a),
    decreases a.len(),
{
    if a.len() > 0 && b.len() > 0 && a[0] == b[0] {
        lemma_key_le_total(a.drop_first(), b.drop_first());
    }
}

/// The order on keys is transitive.
pub proof fn lemma_key_le_transitive(a: Seq<char>, b: Seq<char>, c: Seq<char>)
    requires
        key_le(a, b),
        key_le(b, c),
    ensures
        key_le(a, c),
    decreases a.len(),
{
    if a.len() > 0 && b.len() > 0 && c.len() > 0 && a[0] == b[0] && b[0] == c[0] {
        lemma_key_le_transitive(a.drop_first(), b.drop_first(), c.drop_first());
    }
}

/// Entries are in ascending order of callsign.
pub open spec fn sorted_by_callsign(s: Seq<EntryView>) -> bool {
    forall|i: int, j: int| 0 <= i < j < s.len() ==> key_le(s[i].callsign, s[j].callsign)
}

proof fn lemma_insert_sorted(s: Seq<EntryView>, x: EntryView)
    requires
        sorted_by_callsign(s),
    ensures
        sorted_by_callsign(insert_sorted(s, x)),
        insert_sorted(s, x).to_multiset() =~= s.to_multiset().insert(x),
    decreases s.len(),
{
    broadcast use vstd::seq_lib::group_to_multiset_ensures;

    if s.len() == 0 {
        assert(seq![x] =~= s.push(x));
    } else if key_le(s.last().callsign, x.callsign) {
        let r = s.push(x);
        assert forall|i: int, j: int| 0 <= i < j < r.len() implies key_le(
            r[i].callsign,
            r[j].callsign,
        ) by {
            if j == s.len() {
                if i < s.len() - 1 {
                    lemma_key_le_transitive(
                        s[i].callsign,
                        s[s.len() - 1].callsign,
                        x.callsign,
                    );
                }
            }
        }
    } else {
        let t = s.drop_last();
        let last = s.last();
        assert(s =~= t.push(last));
        lemma_insert_sorted(t, x);
        lemma_key_le_total(last.callsign, x.callsign);
        let q = insert_sorted(t, x);
        let r = q.push(last);
        assert forall|i: int, j: int| 0 <= i < j < r.len() implies key_le(
            r[i].callsign,
            r[j].callsign,
        ) by {
            if j == q.len() {
                assert(q.contains(q[i]));
                assert(q.to_multiset().count(q[i]) > 0);
                if q[i] != x {
                    assert(t.to_multiset().count(q[i]) > 0);
                    assert(t.contains(q[i]));
                    let k = choose|k: int| 0 <= k < t.len() && t[k] == q[i];
                    assert(s[k] == t[k]);
                }
            }
        }
        assert(r.to_multiset() =~= t.to_multiset().insert(x).insert(last));
    }
}

/// The sort gives its entries, each as often as before, in ascending order
/// of callsign.
pub proof fn lemma_sort_by_callsign(s: Seq<EntryView>)
    ensures
        sorted_by_callsign(sort_by_callsign(s)),
        sort_by_callsign(s).to_multiset() =~= s.to_multiset(),
    decreases s.len(),
{
    broadcast use vstd::seq_lib::group_to_multiset_ensures;

    if s.len() > 0 {
        lemma_sort_by_callsign(s.drop_last());
        lemma_insert_sorted(sort_by_callsign(s.drop_last()), s.last());
        assert(s =~= s.drop_last().push(s.last()));
    }
}

/// Some entry of `s` has callsign `c`.
pub open spec fn seen(s: Seq<EntryView>, c: Seq<char>) -> bool {
    exists|k: int| 0 <= k < s.len() && (#[trigger] s[k]).callsign == c
}

/// `s` with each entry left out whose callsign an earlier entry already has.
pub open spec fn dedupe_spec(s: Seq<EntryView>) -> Seq<EntryView>
    decreases s.len(),
{
    if s.len() == 0 {
        s
    } else {
        let d = dedupe_spec(s.drop_last());
        if seen(d, s.last().callsign) {
            d
        } else {
            d.push(s.last())
        }
    }
}

/// `s[k]` is the first entry of `s` with its callsign.
pub open spec fn first_of_callsign(s: Seq<EntryView>, k: int) -> bool {
    &&& 0 <= k < s.len()
    &&& forall|m: int| 0 <= m < k ==> (#[trigger] s[m]).callsign != s[k].callsign
}

proof fn lemma_dedupe_unfold(s: Seq<EntryView>)
    requires
        s.len() > 0,
    ensures
        dedupe_spec(s) == (if seen(dedupe_spec(s.drop_last()), s.last().callsign) {
            dedupe_spec(s.drop_last())
        } else {
            dedupe_spec(s.drop_last()).push(s.last())
        }),
{
}

/// Every callsign of `s` is kept, and no kept callsign is kept twice.
proof fn lemma_dedupe_covers(s: Seq<EntryView>)
    ensures
        forall|i: int, j: int|
            0 <= i < j < dedupe_spec(s).len() ==> (#[trigger] dedupe_spec(s)[i]).callsign != (
            #[trigger] dedupe_spec(s)[j]).callsign,
        forall|k: int| 0 <= k < s.len() ==> seen(dedupe_spec(s), (#[trigger] s[k]).callsign),
    decreases s.len(),
{
    if s.len() > 0 {
        let t = s.drop_last();
        let d = dedupe_spec(t);
        let x = s.last();
        lemma_dedupe_covers(t);
        lemma_dedupe_unfold(s);
        let r = dedupe_spec(s);
        assert forall|k: int| 0 <= k < s.len() implies seen(r, (#[trigger] s[k]).callsign) by {
            if k < t.len() {
                assert(s[k] == t[k]);
                assert(seen(d, t[k].callsign));
                let i = choose|i: int| 0 <= i < d.len() && (#[trigger] d[i]).callsign
                    == t[k].callsign;
                assert(r[i] == d[i]);
            } else if !seen(d, x.callsign) {
                assert(r[d.len() as int] == x);
            }
        }
    }
}

/// A last entry whose callsign no kept entry before it has is the first of
/// its callsign.
proof fn lemma_unseen_is_first(s: Seq<EntryView>)
    requires
        s.len() > 0,
        !seen(dedupe_spec(s.drop_last()), s.last().callsign),
    ensures
        first_of_callsign(s, s.len() - 1),
{
    let t = s.drop_last();
    lemma_dedupe_covers(t);
    assert forall|m: int| 0 <= m < s.len() - 1 implies (#[trigger] s[m]).callsign
        != s[s.len() - 1].callsign by {
        assert(s[m] == t[m]);
        assert(seen(dedupe_spec(t), t[m].callsign));
    }
}

/// Each kept entry is the first of its callsign in `s`.
proof fn lemma_dedupe_firsts(s: Seq<EntryView>)
    ensures
        forall|i: int|
            0 <= i < dedupe_spec(s).len() ==> exists|k: int|
                first_of_callsign(s, k) && s[k] == #[trigger] dedupe_spec(s)[i],
    decreases s.len(),
{
    if s.len() > 0 {
        let t = s.drop_last();
        let d = dedupe_spec(t);
        lemma_dedupe_firsts(t);
        lemma_dedupe_unfold(s);
        let r = dedupe_spec(s);
        assert forall|i: int| 0 <= i < d.len() implies exists|k: int|
            first_of_callsign(s, k) && s[k] == #[trigger] r[i] by {
            let k = choose|k: int| first_of_callsign(t, k) && t[k] == d[i];
            assert forall|m: int| 0 <= m < k implies (#[trigger] s[m]).callsign
                != s[k].callsign by {
                assert(s[m] == t[m]);
            }
            assert(first_of_callsign(s, k));
            assert(r[i] == d[i]);
        }
        if !seen(d, s.last().callsign) {
            lemma_unseen_is_first(s);
            assert(r[d.len() as int] == s[s.len() - 1]);
        }
    }
}

/// The first entry of each callsign in `s` is kept.
#[verifier::rlimit(30)]
proof fn lemma_dedupe_keeps_firsts(s: Seq<EntryView>)
    ensures
        forall|k: int| first_of_callsign(s, k) ==> dedupe_spec(s).contains(#[trigger] s[k]),
    decreases s.len(),
{
    if s.len() > 0 {
        let t = s.drop_last();
        let d = dedupe_spec(t);
        lemma_dedupe_keeps_firsts(t);
        lemma_dedupe_unfold(s);
        let r = dedupe_spec(s);
        let n = s.len() - 1;
        assert forall|k: int| first_of_callsign(s, k) implies r.contains(#[trigger] s[k]) by {
            if k < n {
                lemma_first_in_prefix(s, k);
                let i = choose|i: int| 0 <= i < d.len() && d[i] == t[k];
                lemma_kept_stays(s, i);
                assert(r[i] == s[k]);
            } else {
                lemma_dedupe_last_first(s);
                assert(r == d.push(s[n]));
                assert(r[d.len() as int] == s[k]);
            }
        }
    }
}

/// What was kept of the entries before the last stays kept.
proof fn lemma_kept_stays(s: Seq<EntryView>, i: int)
    requires
        s.len() > 0,
        0 <= i < dedupe_spec(s.drop_last()).len(),
    ensures
        i < dedupe_spec(s).len(),
        dedupe_spec(s)[i] == dedupe_spec(s.drop_last())[i],
{
    lemma_dedupe_unfold(s);
}

proof fn lemma_first_in_prefix(s: Seq<EntryView>, k: int)
    requires
        first_of_callsign(s, k),
        k < s.len() - 1,
    ensures
        first_of_callsign(s.drop_last(), k),
        s.drop_last()[k] == s[k],
{
    let t = s.drop_last();
    assert forall|m: int| 0 <= m < k implies (#[trigger] t[m]).callsign != t[k].callsign by {
        assert(s[m] == t[m]);
    }
}

/// When the last entry is the first of its callsign, no kept entry before
/// it has that callsign.
proof fn lemma_dedupe_last_first(s: Seq<EntryView>)
    requires
        s.len() > 0,
        first_of_callsign(s, s.len() - 1),
    ensures
        !seen(dedupe_spec(s.drop_last()), s.last().callsign),
{
    let t = s.drop_last();
    let d = dedupe_spec(t);
    lemma_dedupe_firsts(t);
    if seen(d, s.last().callsign) {
        let i = choose|i: int| 0 <= i < d.len() && (#[trigger] d[i]).callsign == s.last().callsign;
        let m = choose|m: int| first_of_callsign(t, m) && t[m] == d[i];
        assert(s[m] == t[m]);
        assert(s[m].callsign == s[s.len() - 1].callsign);
    }
}

/// Removing repeats keeps exactly the first entry of each callsign: the kept
/// callsigns are distinct, each kept entry is the first of its callsign in
/// `s`, and every first entry of a callsign is kept.
pub proof fn lemma_dedupe_keeps_first(s: Seq<EntryView>)
    ensures
        forall|i: int, j: int|
            0 <= i < j < dedupe_spec(s).len() ==> (#[trigger] dedupe_spec(s)[i]).callsign != (
            #[trigger] dedupe_spec(s)[j]).callsign,
        forall|i: int|
            0 <= i < dedupe_spec(s).len() ==> exists|k: int|
                first_of_callsign(s, k) && s[k] == #[trigger] dedupe_spec(s)[i],
        forall|k: int| first_of_callsign(s, k) ==> dedupe_spec(s).contains(#[trigger] s[k]),
{
    lemma_dedupe_covers(s);
    lemma_dedupe_firsts(s);
    lemma_dedupe_keeps_firsts(s);
}

pub open spec fn line(e: EntryView) -> Seq<char> {
    e.callsign + seq![' '] + e.emoji_separator + seq![' '] + e.name + seq![' '] + e.suffix
        + seq!['\n']
}

pub open spec fn lines(s: Seq<EntryView>) -> Seq<char>
    decreases s.len(),
{
    if s.len() == 0 {
        seq![]
    } else {
        lines(s.drop_last()) + line(s.last())
    }
}

pub open spec fn title_line(title: Option<Seq<char>>) -> Seq<char> {
    match title {
        None => seq![],
        Some(t) => seq!['#', ' ', 'T', 'I', 'T', 'L', 'E', ':', ' '] + t + seq!['\n'],
    }
}

/// The text of the member list: the title line, then one line per entry in
/// ascending order of callsign.
pub open spec fn render_spec(s: Seq<EntryView>, title: Option<Seq<char>>) -> Seq<char> {
    title_line(title) + lines(sort_by_callsign(s))
}


fn key_le_chars(a: &Vec<char>, b: &Vec<char>) -> (r: bool)
    ensures
        r == key_le(a@, b@),
{
    let mut i: usize = 0;
    assert(a@.subrange(0, a.len() as int) =~= a@);
    assert(b@.subrange(0, b.len() as int) =~= b@);
    while i < a.len() && i < b.len() && a[i] == b[i]
        invariant
            i <= a.len(),
            i <= b.len(),
            key_le(a@.subrange(i as int, a.len() as int), b@.subrange(i as int, b.len() as int))
                == key_le(a@, b@),
        decreases a.len() - i,
    {
        assert(a@.subrange(i as int, a.len() as int).drop_first() =~= a@.subrange(
            i + 1,
            a.len() as int,
        ));
        assert(b@.subrange(i as int, b.len() as int).drop_first() =~= b@.subrange(
            i + 1,
            b.len() as int,
        ));
        i += 1;
    }
    if i == a.len() {
        true
    } else if i == b.len() {
        false
    } else {
        a[i] < b[i]
    }
}

fn key_le_exec(a: &String, b: &String) -> (r: bool)
    ensures
        r == key_le(a@, b@),
{
    let x = chars_of(a.as_str());
    let y = chars_of(b.as_str());
    key_le_chars(&x, &y)
}

proof fn lemma_insert_at(s: Seq<EntryView>, x: EntryView, j: int)
    requires
        0 <= j <= s.len(),
        forall|k: int| j <= k < s.len() ==> !key_le(#[trigger] s[k].callsign, x.callsign),
        j == 0 || key_le(s[j - 1].callsign, x.callsign),
    ensures
        insert_sorted(s, x) == s.subrange(0, j).push(x) + s.subrange(j, s.len() as int),
    decreases s.len(),
{
    if j == s.len() {
        assert(s.subrange(0, j) =~= s);
        assert(s.subrange(0, j).push(x) + s.subrange(j, s.len() as int) =~= s.push(x));
    } else {
        let t = s.drop_last();
        assert(!key_le(s[s.len() - 1].callsign, x.callsign));
        lemma_insert_at(t, x, j);
        assert(t.subrange(0, j) =~= s.subrange(0, j));
        assert((t.subrange(0, j).push(x) + t.subrange(j, t.len() as int)).push(s.last())
            =~= s.subrange(0, j).push(x) + s.subrange(j, s.len() as int));
    }
}

/// The entries in ascending order of callsign, equal callsigns in their
/// original order.
pub fn sort_entries(entries: Vec<OutputEntry>) -> (r: Vec<OutputEntry>)
    ensures
        entries_view(r@) == sort_by_callsign(entries_view(entries@)),
{
    let ghost input = entries@;
    let mut rest = entries;
    let mut out: Vec<OutputEntry> = Vec::new();
    let n = rest.len();
    let mut i: usize = 0;
    assert(entries_view(input.subrange(0, 0)) =~= Seq::<EntryView>::empty());
    assert(entries_view(out@) =~= Seq::<EntryView>::empty());
    while i < n
        invariant
            n == input.len(),
            i <= n,
            rest@ == input.subrange(i as int, n as int),
            entries_view(out@) == sort_by_callsign(entries_view(input.subrange(0, i as int))),
        decreases n - i,
    {
        let x = rest.remove(0);
        assert(x == input[i as int]);
        assert(rest@ =~= input.subrange(i + 1, n as int));
        let mut j: usize = out.len();
        while j > 0 && !key_le_exec(&out[j - 1].callsign, &x.callsign)
            invariant
                j <= out.len(),
                forall|k: int|
                    j <= k < out.len() ==> !key_le(#[trigger] out@[k].callsign@, x.callsign@),
            decreases j,
        {
            j -= 1;
        }
        let ghost before = entries_view(out@);
        proof {
            lemma_insert_at(before, x@, j as int);
        }
        out.insert(j, x);
        proof {
            let prefix = entries_view(input.subrange(0, i + 1));
            assert(prefix.drop_last() =~= entries_view(input.subrange(0, i as int)));
            assert(prefix.last() == x@);
            assert(entries_view(out@) =~= before.subrange(0, j as int).push(x@) + before.subrange(
                j as int,
                before.len() as int,
            ));
        }
        i += 1;
    }
    assert(input.subrange(0, n as int) =~= input);
    out
}


/// The entries with every later repeat of a callsign left out, and how many
/// were left out. Callsigns are equal only when their text is.
pub fn dedupe(entries: Vec<OutputEntry>) -> (r: (Vec<OutputEntry>, usize))
    ensures
        entries_view(r.0@) == dedupe_spec(entries_view(entries@)),
        r.1 == entries.len() - r.0.len(),
{
    let ghost input = entries@;
    let mut rest = entries;
    let mut out: Vec<OutputEntry> = Vec::new();
    let n = rest.len();
    let mut i: usize = 0;
    let mut dropped: usize = 0;
    assert(entries_view(input.subrange(0, 0)) =~= Seq::<EntryView>::empty());
    assert(entries_view(out@) =~= Seq::<EntryView>::empty());
    while i < n
        invariant
            n == input.len(),
            i <= n,
            rest@ == input.subrange(i as int, n as int),
            entries_view(out@) == dedupe_spec(entries_view(input.subrange(0, i as int))),
            dropped + out.len() == i,
        decreases n - i,
    {
        let x = rest.remove(0);
        assert(x == input[i as int]);
        assert(rest@ =~= input.subrange(i + 1, n as int));
        let ghost before = entries_view(out@);
        let mut k: usize = 0;
        let mut found = false;
        while k < out.len()
            invariant
                k <= out.len(),
                before == entries_view(out@),
                found ==> seen(before, x.callsign@),
                !found ==> forall|m: int| 0 <= m < k ==> (#[trigger] before[m]).callsign != x.callsign@,
            decreases out.len() - k,
        {
            if out[k].callsign == x.callsign {
                assert(before[k as int].callsign == x.callsign@);
                found = true;
            }
            k += 1;
        }
        proof {
            let prefix = entries_view(input.subrange(0, i + 1));
            assert(prefix.drop_last() =~= entries_view(input.subrange(0, i as int)));
            assert(prefix.last() == x@);
        }
        if found {
            dropped += 1;
        } else {
            out.push(x);
            assert(entries_view(out@) =~= before.push(x@));
        }
        i += 1;
    }
    assert(input.subrange(0, n as int) =~= input);
    (out, dropped)
}

fn push_str(out: &mut String, s: &str)
    ensures
        final(out)@ == old(out)@ + s@,
{
    out.append(s);
}

/// The member list as text: `# TITLE: {title}` first when a title is given,
/// then `{callsign} {emoji_separator} {name} {suffix}` for each entry, in
/// ascending order of callsign, each line ending in a newline.
pub fn render(entries: Vec<OutputEntry>, title: Option<&str>) -> (r: String)
    ensures
        r@ == render_spec(
            entries_view(entries@),
            match title {
                None => None,
                Some(t) => Some(t@),
            },
        ),
{
    let sorted = sort_entries(entries);
    let ghost sv = entries_view(sorted@);
    let mut out = String::new();
    proof {
        reveal_strlit("# TITLE: ");
        reveal_strlit("\n");
        reveal_strlit(" ");
    }
    match title {
        Some(t) => {
            push_str(&mut out, "# TITLE: ");
            push_str(&mut out, t);
            push_str(&mut out, "\n");
            assert(out@ =~= title_line(Some(t@)));
        },
        None => {
            assert(out@ =~= title_line(None));
        },
    }
    let ghost head = out@;
    let mut i: usize = 0;
    assert(sv.subrange(0, 0) =~= Seq::<EntryView>::empty());
    assert(out@ =~= head + lines(sv.subrange(0, 0)));
    while i < sorted.len()
        invariant
            i <= sorted.len(),
            sv == entries_view(sorted@),
            out@ == head + lines(sv.subrange(0, i as int)),
        decreases sorted.len() - i,
    {
        let e = &sorted[i];
        proof {
            reveal_strlit("\n");
            reveal_strlit(" ");
        }
        push_str(&mut out, e.callsign.as_str());
        push_str(&mut out, " ");
        push_str(&mut out, e.emoji_separator.as_str());
        push_str(&mut out, " ");
        push_str(&mut out, e.name.as_str());
        push_str(&mut out, " ");
        push_str(&mut out, e.suffix.as_str());
        push_str(&mut out, "\n");
        proof {
            let p = sv.subrange(0, i + 1);
            assert(p.drop_last() =~= sv.subrange(0, i as int));
            assert(p.last() == e@);
            assert(out@ =~= head + lines(sv.subrange(0, i as int)) + line(e@));
        }
        i += 1;
    }
    assert(sv.subrange(0, sorted.len() as int) =~= sv);
    out
}

} // verus!
