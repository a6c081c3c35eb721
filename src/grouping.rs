//! The listing grouped for display: by calendar day of creation, most
//! recent first, then by container (or file) name, then by entry name.
use crate::order::{
    lemma_text_le_antisymmetric, lemma_text_le_reflexive, lemma_text_le_total, lemma_text_le_transitive, lemma_text_lt_transitive, text_le,
    text_less_eq, text_lt,
};
use crate::upload::{FileInfo, FileType};
use vstd::prelude::*;

verus! {

broadcast use vstd::seq_lib::group_to_multiset_ensures;

/// The last second of the year 9999: up to it a day label has four digits
/// of year, so that label order is calendar order.
pub const LATEST_TIMESTAMP: u64 = 253402300799;

/// The label of the UTC calendar day that holds `secs` seconds after the
/// epoch, written `YYYY, MM DD`.
pub uninterp spec fn day_label_of(secs: u64) -> Seq<char>;

/// Relies on chrono's `DateTime::from_timestamp` and `format("%Y, %m %d")`:
/// the UTC day of a timestamp, a text that depends on the seconds alone.
/// Up to `LATEST_TIMESTAMP` the timestamp is in chrono's range.
#[verifier::external_body]
fn day_label(secs: u64) -> (r: String)
    requires
        secs <= LATEST_TIMESTAMP,
    ensures
        r@ == day_label_of(secs),
{
    match chrono::DateTime::from_timestamp(secs as i64, 0) {
        Some(d) => d.format("%Y, %m %d").to_string(),
        None => String::new(),
    }
}

/// The key an entry is grouped under: its container's name, or its own
/// name for a standalone file.
pub open spec fn group_key(f: FileInfo) -> Seq<char> {
    match f.file_type {
        FileType::Archive(origin) => origin@,
        FileType::Regular => f.name@,
    }
}

/// The day label of an entry.
pub open spec fn day_of(f: FileInfo) -> Seq<char> {
    day_label_of(f.created)
}

/// Each entry with its day label.
pub open spec fn with_days(data: Seq<FileInfo>) -> Seq<(Seq<char>, FileInfo)> {
    data.map_values(|f: FileInfo| (day_of(f), f))
}

/// Each entry with the label at the same position of `days`.
pub open spec fn labelled(days: Seq<String>, data: Seq<FileInfo>) -> Seq<(Seq<char>, FileInfo)> {
    Seq::new(data.len(), |i: int| (days[i]@, data[i]))
}

/// Order among entries of one day, key and name: standalone files first,
/// then smaller size, then earlier creation.
pub open spec fn rest_le(a: FileInfo, b: FileInfo) -> bool {
    let (ra, rb) = (a.file_type is Regular, b.file_type is Regular);
    (ra && !rb) || (ra == rb && (a.size < b.size || (a.size == b.size && a.created <= b.created)))
}

/// Display order of labelled entries: later day first, then group key,
/// then name, then standalone files first, size and creation time.
pub open spec fn entry_le(a: (Seq<char>, FileInfo), b: (Seq<char>, FileInfo)) -> bool {
    text_lt(b.0, a.0) || (a.0 == b.0 && (text_lt(group_key(a.1), group_key(b.1)) || (group_key(a.1)
        == group_key(b.1) && (text_lt(a.1.name@, b.1.name@) || (a.1.name@ == b.1.name@ && rest_le(
        a.1,
        b.1,
    ))))))
}

/// What the display order sees of a labelled entry: its day, key, name,
/// kind, size and creation time.
pub open spec fn entry_view(p: (Seq<char>, FileInfo)) -> (
    Seq<char>,
    Seq<char>,
    Seq<char>,
    bool,
    u64,
    u64,
) {
    (p.0, group_key(p.1), p.1.name@, p.1.file_type is Regular, p.1.size, p.1.created)
}

pub open spec fn sorted_for_display(s: Seq<(Seq<char>, FileInfo)>) -> bool {
    forall|i: int, j: int| 0 <= i < j < s.len() ==> entry_le(s[i], s[j])
}

/// The entries of one container, or one standalone file, on one day.
#[derive(Debug, Clone)]
pub struct FileGroup {
    pub key: String,
    pub entries: Vec<FileInfo>,
}

/// The entries created on one calendar day.
#[derive(Debug, Clone)]
pub struct DisplayDirectories {
    pub date: String,
    pub files: Vec<FileGroup>,
}

/// Entries, each with the label `day`.
pub open spec fn on_day(es: Seq<FileInfo>, day: Seq<char>) -> Seq<(Seq<char>, FileInfo)> {
    es.map_values(|e: FileInfo| (day, e))
}

/// The entries of a sequence of groups of day `day`, group after group,
/// each with that label.
pub open spec fn flat_groups(gs: Seq<FileGroup>, day: Seq<char>) -> Seq<(Seq<char>, FileInfo)>
    decreases gs.len(),
{
    if gs.len() == 0 {
        Seq::empty()
    } else {
        flat_groups(gs.drop_last(), day) + on_day(gs.last().entries@, day)
    }
}

/// The entries of a sequence of days, day after day, each with the label
/// of its day.
pub open spec fn flat_days(ds: Seq<DisplayDirectories>) -> Seq<(Seq<char>, FileInfo)>
    decreases ds.len(),
{
    if ds.len() == 0 {
        Seq::empty()
    } else {
        flat_days(ds.drop_last()) + flat_groups(ds.last().files@, ds.last().date@)
    }
}

/// A group: not empty, every entry of the group's key, names ascending.
pub open spec fn group_ok(g: FileGroup) -> bool {
    &&& g.entries@.len() > 0
    &&& forall|k: int|
        0 <= k < g.entries@.len() ==> group_key(#[trigger] g.entries@[k]) == g.key@
    &&& forall|k1: int, k2: int|
        0 <= k1 < k2 < g.entries@.len() ==> text_le(
            (#[trigger] g.entries@[k1]).name@,
            (#[trigger] g.entries@[k2]).name@,
        )
}

/// The groups of a day, keys strictly ascending.
pub open spec fn groups_ok(gs: Seq<FileGroup>) -> bool {
    &&& forall|j: int| 0 <= j < gs.len() ==> group_ok(#[trigger] gs[j])
    &&& forall|j1: int, j2: int|
        0 <= j1 < j2 < gs.len() ==> text_lt((#[trigger] gs[j1]).key@, (#[trigger] gs[j2]).key@)
}

/// Days with at least one group each, dates strictly descending.
pub open spec fn days_ok(ds: Seq<DisplayDirectories>) -> bool {
    &&& forall|i: int|
        0 <= i < ds.len() ==> (#[trigger] ds[i]).files@.len() > 0 && groups_ok(ds[i].files@)
    &&& forall|i1: int, i2: int|
        0 <= i1 < i2 < ds.len() ==> text_lt((#[trigger] ds[i2]).date@, (#[trigger] ds[i1]).date@)
}

pub proof fn lemma_entry_le_total(a: (Seq<char>, FileInfo), b: (Seq<char>, FileInfo))
    ensures
        entry_le(a, b) || entry_le(b, a),
{
    lemma_text_le_total(a.0, b.0);
    lemma_text_le_total(group_key(a.1), group_key(b.1));
    lemma_text_le_total(a.1.name@, b.1.name@);
    lemma_text_le_reflexive(a.1.name@);
}

pub proof fn lemma_entry_le_transitive(
    a: (Seq<char>, FileInfo),
    b: (Seq<char>, FileInfo),
    c: (Seq<char>, FileInfo),
)
    requires
        entry_le(a, b),
        entry_le(b, c),
    ensures
        entry_le(a, c),
{
    let (da, db, dc) = (a.0, b.0, c.0);
    let (ka, kb, kc) = (group_key(a.1), group_key(b.1), group_key(c.1));
    if text_lt(db, da) && text_lt(dc, db) {
        lemma_text_lt_transitive(dc, db, da);
    } else if text_lt(db, da) || text_lt(dc, db) {
    } else if text_lt(ka, kb) && text_lt(kb, kc) {
        lemma_text_lt_transitive(ka, kb, kc);
    } else if text_lt(ka, kb) || text_lt(kb, kc) {
    } else if text_lt(a.1.name@, b.1.name@) && text_lt(b.1.name@, c.1.name@) {
        lemma_text_lt_transitive(a.1.name@, b.1.name@, c.1.name@);
    } else {
    }
}

impl FileInfo {
    /// The key the entry is grouped under.
    pub fn key_text(&self) -> (r: String)
        ensures
            r@ == group_key(*self),
    {
        match &self.file_type {
            FileType::Archive(origin) => origin.clone(),
            FileType::Regular => self.name.clone(),
        }
    }
}

/// Whether `a`, of day `da`, comes before `b`, of day `db`, or ties with it.
fn entry_less_eq(a: &FileInfo, da: &String, b: &FileInfo, db: &String) -> (r: bool)
    ensures
        r == entry_le((da@, *a), (db@, *b)),
{
    if !(*da == *db) {
        text_less_eq(db.as_str(), da.as_str())
    } else {
        let ka = a.key_text();
        let kb = b.key_text();
        if !(ka == kb) {
            text_less_eq(ka.as_str(), kb.as_str())
        } else if !(a.name == b.name) {
            text_less_eq(a.name.as_str(), b.name.as_str())
        } else {
            let ra = match a.file_type {
                FileType::Regular => true,
                FileType::Archive(_) => false,
            };
            let rb = match b.file_type {
                FileType::Regular => true,
                FileType::Archive(_) => false,
            };
            if ra != rb {
                ra
            } else {
                a.size < b.size || (a.size == b.size && a.created <= b.created)
            }
        }
    }
}


/// The entries with their labels, in display order.
fn sort_for_display(data: &Vec<FileInfo>, days: &Vec<String>) -> (r: (Vec<FileInfo>, Vec<String>))
    requires
        days@.len() == data@.len(),
    ensures
        r.1@.len() == r.0@.len(),
        labelled(r.1@, r.0@).to_multiset() == labelled(days@, data@).to_multiset(),
        sorted_for_display(labelled(r.1@, r.0@)),
{
    let ghost input = labelled(days@, data@);
    let mut sorted: Vec<FileInfo> = Vec::new();
    let mut sdays: Vec<String> = Vec::new();
    let mut i: usize = 0;
    while i < data.len()
        invariant
            i <= data@.len(),
            days@.len() == data@.len(),
            input == labelled(days@, data@),
            sdays@.len() == sorted@.len(),
            labelled(sdays@, sorted@).to_multiset() == input.subrange(0, i as int).to_multiset(),
            sorted_for_display(labelled(sdays@, sorted@)),
        decreases data.len() - i,
    {
        let x = data[i].duplicate();
        let d = days[i].clone();
        let ghost old_ps = labelled(sdays@, sorted@);
        let mut pos: usize = 0;
        while pos < sorted.len() && entry_less_eq(&sorted[pos], &sdays[pos], &x, &d)
            invariant
                pos <= sorted@.len(),
                sdays@.len() == sorted@.len(),
                old_ps == labelled(sdays@, sorted@),
                forall|j: int| 0 <= j < pos ==> entry_le(#[trigger] old_ps[j], (d@, x)),
            decreases sorted.len() - pos,
        {
            pos = pos + 1;
        }
        let ghost xd = (d@, x);
        proof {
            if pos < old_ps.len() {
                lemma_entry_le_total(old_ps[pos as int], xd);
                assert forall|j: int| pos <= j < old_ps.len() implies entry_le(
                    xd,
                    #[trigger] old_ps[j],
                ) by {
                    if j > pos {
                        lemma_entry_le_transitive(xd, old_ps[pos as int], old_ps[j]);
                    }
                }
            }
        }
        sorted.insert(pos, x);
        sdays.insert(pos, d);
        proof {
            let t = labelled(sdays@, sorted@);
            assert(t =~= old_ps.insert(pos as int, xd));
            assert forall|a: int, b: int| 0 <= a < b < t.len() implies entry_le(t[a], t[b]) by {
                if b < pos {
                } else if b == pos {
                } else if a < pos {
                    assert(t[b] == old_ps[b - 1]);
                } else if a == pos {
                    assert(t[b] == old_ps[b - 1]);
                } else {
                    assert(t[a] == old_ps[a - 1]);
                    assert(t[b] == old_ps[b - 1]);
                }
            }
            assert(t.remove(pos as int) =~= old_ps);
            assert(t.to_multiset().count(xd) > 0);
            assert(t.to_multiset() =~= old_ps.to_multiset().insert(xd));
            assert(input[i as int] == xd);
            assert(input.subrange(0, i + 1) =~= input.subrange(0, i as int).push(xd));
        }
        i = i + 1;
    }
    assert(input.subrange(0, data@.len() as int) =~= input);
    (sorted, sdays)
}

/// No two different entries of `s` look the same to the display order.
pub open spec fn no_ties(s: Seq<(Seq<char>, FileInfo)>) -> bool {
    forall|i: int, j: int|
        0 <= i < s.len() && 0 <= j < s.len() && entry_view(#[trigger] s[i]) == entry_view(
            #[trigger] s[j],
        ) ==> s[i] == s[j]
}

/// Entries ordered both ways share day, key and name.
proof fn lemma_entry_le_tie(a: (Seq<char>, FileInfo), b: (Seq<char>, FileInfo))
    requires
        entry_le(a, b),
        entry_le(b, a),
    ensures
        entry_view(a) == entry_view(b),
{
    if a.0 != b.0 {
        if text_lt(b.0, a.0) {
            lemma_text_le_antisymmetric(b.0, a.0);
        } else {
            lemma_text_le_antisymmetric(a.0, b.0);
        }
    } else if group_key(a.1) != group_key(b.1) {
        if text_lt(group_key(a.1), group_key(b.1)) {
            lemma_text_le_antisymmetric(group_key(a.1), group_key(b.1));
        } else {
            lemma_text_le_antisymmetric(group_key(b.1), group_key(a.1));
        }
    } else if a.1.name@ != b.1.name@ {
        lemma_text_le_antisymmetric(a.1.name@, b.1.name@);
    }
}

/// Two sequences in display order with the same entries, none tied, are
/// the same sequence.
proof fn lemma_sorted_unique(s1: Seq<(Seq<char>, FileInfo)>, s2: Seq<(Seq<char>, FileInfo)>)
    requires
        sorted_for_display(s1),
        sorted_for_display(s2),
        s1.to_multiset() == s2.to_multiset(),
        no_ties(s1),
    ensures
        s1 == s2,
    decreases s1.len(),
{
    assert(s1.len() == s1.to_multiset().len());
    assert(s2.len() == s2.to_multiset().len());
    if s1.len() == 0 {
        assert(s1 =~= s2);
    } else {
        let a = s1[0];
        let b = s2[0];
        assert(s2.to_multiset().count(b) > 0);
        assert(s1.contains(b));
        let j = choose|j: int| 0 <= j < s1.len() && s1[j] == b;
        assert(s1.to_multiset().count(a) > 0);
        assert(s2.contains(a));
        let k = choose|k: int| 0 <= k < s2.len() && s2[k] == a;
        if j > 0 {
            assert(entry_le(s1[0], s1[j]));
        }
        if k > 0 {
            assert(entry_le(s2[0], s2[k]));
        }
        if a != b {
            lemma_entry_le_tie(a, b);
            assert(s1[0] == s1[j]);
        }
        let t1 = s1.drop_first();
        let t2 = s2.drop_first();
        assert(t1 =~= s1.remove(0));
        assert(t2 =~= s2.remove(0));
        assert forall|x: int, y: int| 0 <= x < t1.len() && 0 <= y < t1.len() implies entry_le(
            t1[x],
            t1[y],
        ) || x >= y by {
            if x < y {
                assert(t1[x] == s1[x + 1] && t1[y] == s1[y + 1]);
            }
        }
        assert forall|x: int, y: int| 0 <= x < t2.len() && 0 <= y < t2.len() implies entry_le(
            t2[x],
            t2[y],
        ) || x >= y by {
            if x < y {
                assert(t2[x] == s2[x + 1] && t2[y] == s2[y + 1]);
            }
        }
        assert forall|x: int, y: int|
            0 <= x < t1.len() && 0 <= y < t1.len() && entry_view(#[trigger] t1[x]) == entry_view(
                #[trigger] t1[y],
            ) implies t1[x] == t1[y] by {
            assert(t1[x] == s1[x + 1] && t1[y] == s1[y + 1]);
        }
        lemma_sorted_unique(t1, t2);
        assert(s1 =~= s2) by {
            assert forall|x: int| 0 <= x < s1.len() implies s1[x] == s2[x] by {
                if x > 0 {
                    assert(s1[x] == t1[x - 1] && s2[x] == t2[x - 1]);
                }
            }
        }
    }
}

/// Grouping does not depend on the order of the listing: two groupings of
/// the same entries, each with its day label, however they were ordered,
/// have the same days, the same groups and the same entries in the same
/// order, as long as no two different entries look alike to the display
/// order (same day, key, name, kind, size and creation time). Listing an
/// unchanged directory twice and grouping each listing thus gives equal
/// results.
pub proof fn lemma_grouping_order_independent(
    listing_a: Seq<(Seq<char>, FileInfo)>,
    listing_b: Seq<(Seq<char>, FileInfo)>,
    grouped_a: Seq<DisplayDirectories>,
    grouped_b: Seq<DisplayDirectories>,
)
    requires
        listing_a.to_multiset() == listing_b.to_multiset(),
        no_ties(listing_a),
        flat_days(grouped_a).to_multiset() == listing_a.to_multiset(),
        flat_days(grouped_b).to_multiset() == listing_b.to_multiset(),
        sorted_for_display(flat_days(grouped_a)),
        sorted_for_display(flat_days(grouped_b)),
        days_ok(grouped_a),
        days_ok(grouped_b),
    ensures
        flat_days(grouped_a) == flat_days(grouped_b),
        same_grouping(grouped_a, grouped_b),
{
    let fa = flat_days(grouped_a);
    assert forall|i: int, j: int|
        0 <= i < fa.len() && 0 <= j < fa.len() && entry_view(#[trigger] fa[i]) == entry_view(
            #[trigger] fa[j],
        ) implies fa[i] == fa[j] by {
        assert(fa.to_multiset().count(fa[i]) > 0);
        assert(fa.to_multiset().count(fa[j]) > 0);
        assert(listing_a.contains(fa[i]));
        assert(listing_a.contains(fa[j]));
        let x = choose|x: int| 0 <= x < listing_a.len() && listing_a[x] == fa[i];
        let y = choose|y: int| 0 <= y < listing_a.len() && listing_a[y] == fa[j];
        assert(listing_a[x] == listing_a[y]);
    }
    lemma_sorted_unique(fa, flat_days(grouped_b));
    lemma_days_unique(grouped_a, grouped_b);
}

/// Closing a group keeps the groups of a day in order.
proof fn lemma_close_group(groups: Seq<FileGroup>, g: FileGroup, day: Seq<char>)
    requires
        groups_ok(groups),
        group_ok(g),
        forall|j: int| 0 <= j < groups.len() ==> text_lt((#[trigger] groups[j]).key@, g.key@),
    ensures
        groups_ok(groups.push(g)),
        flat_groups(groups.push(g), day) == flat_groups(groups, day) + on_day(g.entries@, day),
{
    assert(groups.push(g).drop_last() =~= groups);
    let gs = groups.push(g);
    assert forall|j1: int, j2: int| 0 <= j1 < j2 < gs.len() implies text_lt(
        (#[trigger] gs[j1]).key@,
        (#[trigger] gs[j2]).key@,
    ) by {
        if j2 < groups.len() {
            assert(gs[j1] == groups[j1] && gs[j2] == groups[j2]);
        } else {
            assert(gs[j1] == groups[j1]);
        }
    }
    assert forall|j: int| 0 <= j < gs.len() implies group_ok(#[trigger] gs[j]) by {
        if j < groups.len() {
            assert(gs[j] == groups[j]);
        }
    }
}

/// Closing a day keeps the days in order.
proof fn lemma_close_day(days: Seq<DisplayDirectories>, d: DisplayDirectories)
    requires
        days_ok(days),
        d.files@.len() > 0,
        groups_ok(d.files@),
        forall|i: int| 0 <= i < days.len() ==> text_lt(d.date@, (#[trigger] days[i]).date@),
    ensures
        days_ok(days.push(d)),
        flat_days(days.push(d)) == flat_days(days) + flat_groups(d.files@, d.date@),
{
    assert(days.push(d).drop_last() =~= days);
    let ds = days.push(d);
    assert forall|i1: int, i2: int| 0 <= i1 < i2 < ds.len() implies text_lt(
        (#[trigger] ds[i2]).date@,
        (#[trigger] ds[i1]).date@,
    ) by {
        if i2 < days.len() {
            assert(ds[i1] == days[i1] && ds[i2] == days[i2]);
        } else {
            assert(ds[i1] == days[i1]);
        }
    }
    assert forall|i: int| 0 <= i < ds.len() implies (#[trigger] ds[i]).files@.len() > 0
        && groups_ok(ds[i].files@) by {
        if i < days.len() {
            assert(ds[i] == days[i]);
        }
    }
}

/// The day label of every entry.
fn labels_of(data: &Vec<FileInfo>) -> (r: Vec<String>)
    requires
        forall|i: int| 0 <= i < data@.len() ==> (#[trigger] data@[i]).created <= LATEST_TIMESTAMP,
    ensures
        r@.len() == data@.len(),
        labelled(r@, data@) == with_days(data@),
{
    let mut r: Vec<String> = Vec::new();
    let mut i: usize = 0;
    while i < data.len()
        invariant
            i <= data@.len(),
            forall|j: int| 0 <= j < data@.len() ==> (#[trigger] data@[j]).created <= LATEST_TIMESTAMP,
            r@.len() == i,
            forall|j: int| 0 <= j < i ==> (#[trigger] r@[j])@ == day_of(data@[j]),
        decreases data.len() - i,
    {
        r.push(day_label(data[i].created));
        i = i + 1;
    }
    assert(labelled(r@, data@) =~= with_days(data@));
    r
}

impl DisplayDirectories {
    /// Groups a listing for display: one element per calendar day of
    /// creation, most recent first; in each, one group per container name
    /// (or file name, for a standalone file), keys ascending; in each group
    /// its entries, names ascending. Every entry of `data` appears exactly
    /// once, under its own day.
    pub fn from(data: &Vec<FileInfo>) -> (r: Vec<DisplayDirectories>)
        requires
            forall|i: int|
                0 <= i < data@.len() ==> (#[trigger] data@[i]).created <= LATEST_TIMESTAMP,
        ensures
            days_ok(r@),
            flat_days(r@).to_multiset() == with_days(data@).to_multiset(),
            sorted_for_display(flat_days(r@)),
            forall|i1: int, i2: int|
                0 <= i1 < i2 < r@.len() ==> text_lt((#[trigger] r@[i2]).date@, (#[trigger] r@[i1]).date@),
            forall|i: int, j: int, k1: int, k2: int|
                0 <= i < r@.len() && 0 <= j < r@[i].files@.len() && 0 <= k1 < k2
                    < r@[i].files@[j].entries@.len() ==> text_le(
                    (#[trigger] r@[i].files@[j].entries@[k1]).name@,
                    (#[trigger] r@[i].files@[j].entries@[k2]).name@,
                ),
    {
        let days = labels_of(data);
        let r = Self::from_labelled(data, &days);
        assert forall|i: int, j: int, k1: int, k2: int|
            0 <= i < r@.len() && 0 <= j < r@[i].files@.len() && 0 <= k1 < k2
                < r@[i].files@[j].entries@.len() implies text_le(
            (#[trigger] r@[i].files@[j].entries@[k1]).name@,
            (#[trigger] r@[i].files@[j].entries@[k2]).name@,
        ) by {
            assert(groups_ok(r@[i].files@));
            assert(group_ok(r@[i].files@[j]));
        }
        r
    }

    /// Groups a listing whose entries carry the day labels `days`, position
    /// by position, as `from` does with the labels of their creation times.
    pub fn from_labelled(data: &Vec<FileInfo>, days: &Vec<String>) -> (r: Vec<DisplayDirectories>)
        requires
            days@.len() == data@.len(),
        ensures
            days_ok(r@),
            flat_days(r@).to_multiset() == labelled(days@, data@).to_multiset(),
            sorted_for_display(flat_days(r@)),
    {
        let (sorted, sdays) = sort_for_display(data, days);
        let ghost ps = labelled(sdays@, sorted@);
        let mut result: Vec<DisplayDirectories> = Vec::new();
        if sorted.len() == 0 {
            assert(flat_days(result@) =~= ps);
            assert(sorted_for_display(flat_days(result@)));
            return result;
        }
        let first = sorted[0].duplicate();
        let mut cur_day: String = sdays[0].clone();
        let mut cur_key: String = first.key_text();
        let mut cur_entries: Vec<FileInfo> = Vec::new();
        cur_entries.push(first);
        let mut groups: Vec<FileGroup> = Vec::new();
        let mut i: usize = 1;
        assert(flat_days(result@) + flat_groups(groups@, cur_day@) + on_day(
            cur_entries@,
            cur_day@,
        ) =~= ps.subrange(0, 1));
        while i < sorted.len()
            invariant
                1 <= i <= sorted@.len(),
                sdays@.len() == sorted@.len(),
                ps == labelled(sdays@, sorted@),
                sorted_for_display(ps),
                flat_days(result@) + flat_groups(groups@, cur_day@) + on_day(cur_entries@, cur_day@)
                    == ps.subrange(0, i as int),
                days_ok(result@),
                forall|j: int|
                    0 <= j < result@.len() ==> text_lt(cur_day@, (#[trigger] result@[j]).date@),
                groups_ok(groups@),
                forall|j: int|
                    0 <= j < groups@.len() ==> text_lt((#[trigger] groups@[j]).key@, cur_key@),
                group_ok(FileGroup { key: cur_key, entries: cur_entries }),
                cur_entries@.last() == sorted@[i - 1],
                cur_day@ == ps[i - 1].0,
                cur_key@ == group_key(sorted@[i - 1]),
            decreases sorted.len() - i,
        {
            let x = sorted[i].duplicate();
            let ghost p = ps[i - 1];
            let ghost xd = ps[i as int];
            assert(entry_le(p, xd));
            assert(xd == (sdays@[i as int]@, x));
            let ghost before = ps.subrange(0, i as int);
            assert(ps.subrange(0, i + 1) =~= before.push(xd));
            if sdays[i] == cur_day {
                let k = x.key_text();
                if k == cur_key {
                    let ghost old_entries = cur_entries@;
                    cur_entries.push(x);
                    proof {
                        let es = cur_entries@;
                        lemma_text_le_reflexive(x.name@);
                        assert(text_le(p.1.name@, x.name@));
                        assert forall|k1: int, k2: int| 0 <= k1 < k2 < es.len() implies text_le(
                            (#[trigger] es[k1]).name@,
                            (#[trigger] es[k2]).name@,
                        ) by {
                            if k2 == es.len() - 1 {
                                if k1 < old_entries.len() - 1 {
                                    assert(es[k1] == old_entries[k1]);
                                    assert(text_le(
                                        old_entries[k1].name@,
                                        old_entries[old_entries.len() - 1].name@,
                                    ));
                                    lemma_text_le_transitive(es[k1].name@, p.1.name@, x.name@);
                                }
                            } else {
                                assert(es[k1] == old_entries[k1] && es[k2] == old_entries[k2]);
                            }
                        }
                        assert forall|k1: int| 0 <= k1 < es.len() implies group_key(
                            #[trigger] es[k1],
                        ) == cur_key@ by {
                            if k1 < old_entries.len() {
                                assert(es[k1] == old_entries[k1]);
                            }
                        }
                        assert(on_day(cur_entries@, cur_day@) =~= on_day(old_entries, cur_day@).push(
                            xd,
                        ));
                        assert(flat_days(result@) + flat_groups(groups@, cur_day@) + on_day(
                            cur_entries@,
                            cur_day@,
                        ) =~= before.push(xd));
                    }
                } else {
                    assert(text_lt(cur_key@, k@));
                    let g = FileGroup { key: cur_key, entries: cur_entries };
                    proof {
                        lemma_close_group(groups@, g, cur_day@);
                    }
                    groups.push(g);
                    proof {
                        assert forall|j: int| 0 <= j < groups@.len() implies text_lt(
                            (#[trigger] groups@[j]).key@,
                            k@,
                        ) by {
                            if j < groups@.len() - 1 {
                                lemma_text_lt_transitive(groups@[j].key@, g.key@, k@);
                            }
                        }
                    }
                    cur_key = k;
                    cur_entries = Vec::new();
                    cur_entries.push(x);
                    proof {
                        assert(on_day(cur_entries@, cur_day@) =~= seq![xd]);
                        assert(flat_days(result@) + flat_groups(groups@, cur_day@) + on_day(
                            cur_entries@,
                            cur_day@,
                        ) =~= before.push(xd));
                    }
                }
            } else {
                assert(text_lt(xd.0, cur_day@));
                let g = FileGroup { key: cur_key, entries: cur_entries };
                proof {
                    lemma_close_group(groups@, g, cur_day@);
                }
                groups.push(g);
                let d = DisplayDirectories { date: cur_day, files: groups };
                proof {
                    lemma_close_day(result@, d);
                }
                result.push(d);
                proof {
                    assert forall|j: int| 0 <= j < result@.len() implies text_lt(
                        xd.0,
                        (#[trigger] result@[j]).date@,
                    ) by {
                        if j < result@.len() - 1 {
                            lemma_text_lt_transitive(xd.0, d.date@, result@[j].date@);
                        }
                    }
                }
                groups = Vec::new();
                cur_day = sdays[i].clone();
                cur_key = x.key_text();
                cur_entries = Vec::new();
                cur_entries.push(x);
                proof {
                    assert(flat_groups(groups@, cur_day@) =~= Seq::<(Seq<char>, FileInfo)>::empty());
                    assert(on_day(cur_entries@, cur_day@) =~= seq![xd]);
                    assert(flat_days(result@) + flat_groups(groups@, cur_day@) + on_day(
                        cur_entries@,
                        cur_day@,
                    ) =~= before.push(xd));
                }
            }
            i = i + 1;
        }
        let g = FileGroup { key: cur_key, entries: cur_entries };
        proof {
            lemma_close_group(groups@, g, cur_day@);
        }
        groups.push(g);
        let d = DisplayDirectories { date: cur_day, files: groups };
        proof {
            lemma_close_day(result@, d);
        }
        result.push(d);
        assert(flat_days(result@) =~= ps.subrange(0, ps.len() as int));
        assert(ps.subrange(0, ps.len() as int) =~= ps);
        assert(sorted_for_display(flat_days(result@)));
        result
    }
}

/// Two groupings with the same days, keys and entries, position by
/// position.
pub open spec fn same_grouping(ra: Seq<DisplayDirectories>, rb: Seq<DisplayDirectories>) -> bool {
    &&& ra.len() == rb.len()
    &&& forall|i: int|
        0 <= i < ra.len() ==> (#[trigger] ra[i]).date@ == rb[i].date@ && same_groups(
            ra[i].files@,
            rb[i].files@,
        )
}

/// Two sequences of groups with the same keys and entries, position by
/// position.
pub open spec fn same_groups(ga: Seq<FileGroup>, gb: Seq<FileGroup>) -> bool {
    &&& ga.len() == gb.len()
    &&& forall|j: int|
        0 <= j < ga.len() ==> (#[trigger] ga[j]).key@ == gb[j].key@ && ga[j].entries@
            == gb[j].entries@
}

/// Every entry of groups of day `day` carries that label, and a key that
/// comes before `bound` when every group's key does.
proof fn lemma_flat_groups_facts(gs: Seq<FileGroup>, day: Seq<char>, bound: Seq<char>)
    requires
        groups_ok(gs),
    ensures
        forall|k: int| 0 <= k < flat_groups(gs, day).len() ==> (#[trigger] flat_groups(gs, day)[k]).0 == day,
        (forall|j: int| 0 <= j < gs.len() ==> text_lt((#[trigger] gs[j]).key@, bound)) ==> forall|
            k: int,
        |
            0 <= k < flat_groups(gs, day).len() ==> text_lt(
                group_key((#[trigger] flat_groups(gs, day)[k]).1),
                bound,
            ),
        gs.len() > 0 ==> flat_groups(gs, day).len() > 0,
    decreases gs.len(),
{
    if gs.len() > 0 {
        let init = gs.drop_last();
        lemma_groups_ok_init(gs);
        lemma_flat_groups_facts(init, day, bound);
        let f = flat_groups(gs, day);
        let fi = flat_groups(init, day);
        let last = gs.last();
        assert(group_ok(gs[gs.len() - 1]));
        assert(f == fi + on_day(last.entries@, day));
        if forall|j: int| 0 <= j < gs.len() ==> text_lt((#[trigger] gs[j]).key@, bound) {
            assert forall|j: int| 0 <= j < init.len() implies text_lt((#[trigger] init[j]).key@, bound) by {
                assert(init[j] == gs[j]);
            }
            assert(text_lt(gs[gs.len() - 1].key@, bound));
            assert forall|k: int| 0 <= k < f.len() implies text_lt(group_key((#[trigger] f[k]).1), bound) by {
                if k >= fi.len() {
                    assert(f[k].1 == last.entries@[k - fi.len()]);
                } else {
                    assert(f[k] == fi[k]);
                }
            }
        }
        assert forall|k: int| 0 <= k < f.len() implies (#[trigger] f[k]).0 == day by {
            if k < fi.len() {
                assert(f[k] == fi[k]);
            }
        }
    }
}

/// Every entry of days whose dates all come after `d` carries a label
/// other than `d`; a grouping with a day holds an entry.
proof fn lemma_flat_days_facts(ds: Seq<DisplayDirectories>, d: Seq<char>)
    requires
        days_ok(ds),
    ensures
        (forall|i: int| 0 <= i < ds.len() ==> text_lt(d, (#[trigger] ds[i]).date@)) ==> forall|
            k: int,
        | 0 <= k < flat_days(ds).len() ==> (#[trigger] flat_days(ds)[k]).0 != d,
        ds.len() > 0 ==> flat_days(ds).len() > 0,
    decreases ds.len(),
{
    if ds.len() > 0 {
        let init = ds.drop_last();
        lemma_days_ok_init(ds);
        lemma_flat_days_facts(init, d);
        let last = ds.last();
        assert(last.files@.len() > 0 && groups_ok(last.files@));
        lemma_flat_groups_facts(last.files@, last.date@, d);
        let f = flat_days(ds);
        let fi = flat_days(init);
        let fl = flat_groups(last.files@, last.date@);
        assert(f == fi + fl);
        if forall|i: int| 0 <= i < ds.len() ==> text_lt(d, (#[trigger] ds[i]).date@) {
            assert forall|i: int| 0 <= i < init.len() implies text_lt(d, (#[trigger] init[i]).date@) by {
                assert(init[i] == ds[i]);
            }
            assert(text_lt(d, ds[ds.len() - 1].date@));
            assert forall|k: int| 0 <= k < f.len() implies (#[trigger] f[k]).0 != d by {
                if k < fi.len() {
                    assert(f[k] == fi[k]);
                } else {
                    assert(f[k] == fl[k - fi.len()]);
                }
            }
        }
    }
}

proof fn lemma_groups_ok_init(gs: Seq<FileGroup>)
    requires
        groups_ok(gs),
        gs.len() > 0,
    ensures
        groups_ok(gs.drop_last()),
        group_ok(gs.last()),
        forall|j: int| 0 <= j < gs.len() - 1 ==> text_lt((#[trigger] gs[j]).key@, gs.last().key@),
{
    let init = gs.drop_last();
    assert forall|j: int| 0 <= j < init.len() implies group_ok(#[trigger] init[j]) by {
        assert(init[j] == gs[j]);
    }
    assert forall|j1: int, j2: int| 0 <= j1 < j2 < init.len() implies text_lt(
        (#[trigger] init[j1]).key@,
        (#[trigger] init[j2]).key@,
    ) by {
        assert(init[j1] == gs[j1] && init[j2] == gs[j2]);
    }
    assert(group_ok(gs[gs.len() - 1]));
}

proof fn lemma_days_ok_init(ds: Seq<DisplayDirectories>)
    requires
        days_ok(ds),
        ds.len() > 0,
    ensures
        days_ok(ds.drop_last()),
        ds.last().files@.len() > 0,
        groups_ok(ds.last().files@),
        forall|i: int| 0 <= i < ds.len() - 1 ==> text_lt(ds.last().date@, (#[trigger] ds[i]).date@),
{
    let init = ds.drop_last();
    assert forall|i: int| 0 <= i < init.len() implies (#[trigger] init[i]).files@.len() > 0
        && groups_ok(init[i].files@) by {
        assert(init[i] == ds[i]);
    }
    assert forall|i1: int, i2: int| 0 <= i1 < i2 < init.len() implies text_lt(
        (#[trigger] init[i2]).date@,
        (#[trigger] init[i1]).date@,
    ) by {
        assert(init[i1] == ds[i1] && init[i2] == ds[i2]);
    }
    assert(ds[ds.len() - 1].files@.len() > 0);
}

/// Groups of one day in key order are fixed by their entries in order.
proof fn lemma_groups_unique(ga: Seq<FileGroup>, gb: Seq<FileGroup>, day: Seq<char>)
    requires
        groups_ok(ga),
        groups_ok(gb),
        flat_groups(ga, day) == flat_groups(gb, day),
    ensures
        same_groups(ga, gb),
    decreases ga.len() + gb.len(),
{
    let f = flat_groups(ga, day);
    lemma_flat_groups_facts(ga, day, Seq::empty());
    lemma_flat_groups_facts(gb, day, Seq::empty());
    if ga.len() > 0 && gb.len() > 0 {
        lemma_groups_ok_init(ga);
        lemma_groups_ok_init(gb);
        let (ia, ib) = (ga.drop_last(), gb.drop_last());
        let (la, lb) = (ga.last(), gb.last());
        let (fa, fb) = (flat_groups(ia, day), flat_groups(ib, day));
        let (ea, eb) = (on_day(la.entries@, day), on_day(lb.entries@, day));
        assert(f == fa + ea);
        assert(f == fb + eb);
        assert(f.last() == ea.last());
        assert(f.last() == eb.last());
        assert(group_key(la.entries@[la.entries@.len() - 1]) == la.key@);
        assert(group_key(lb.entries@[lb.entries@.len() - 1]) == lb.key@);
        let key = la.key@;
        assert(lb.key@ == key);
        assert forall|j: int| 0 <= j < ia.len() implies text_lt((#[trigger] ia[j]).key@, key) by {
            assert(ia[j] == ga[j]);
        }
        assert forall|j: int| 0 <= j < ib.len() implies text_lt((#[trigger] ib[j]).key@, key) by {
            assert(ib[j] == gb[j]);
        }
        lemma_flat_groups_facts(ia, day, key);
        lemma_flat_groups_facts(ib, day, key);
        if ea.len() < eb.len() {
            let q = f.len() - eb.len();
            assert(f[q] == fa[q]);
            assert(f[q] == eb[q - fb.len()]);
            assert(group_key(lb.entries@[q - fb.len()]) == key);
            assert(text_lt(group_key(fa[q].1), key));
        }
        if eb.len() < ea.len() {
            let q = f.len() - ea.len();
            assert(f[q] == fb[q]);
            assert(f[q] == ea[q - fa.len()]);
            assert(group_key(la.entries@[q - fa.len()]) == key);
            assert(text_lt(group_key(fb[q].1), key));
        }
        assert(fa =~= f.subrange(0, fa.len() as int));
        assert(fb =~= f.subrange(0, fb.len() as int));
        assert(ea =~= f.subrange(fa.len() as int, f.len() as int));
        assert(eb =~= f.subrange(fb.len() as int, f.len() as int));
        assert(la.entries@ =~= lb.entries@) by {
            assert forall|k: int| 0 <= k < la.entries@.len() implies la.entries@[k]
                == lb.entries@[k] by {
                assert(ea[k].1 == la.entries@[k]);
                assert(eb[k].1 == lb.entries@[k]);
            }
        }
        lemma_groups_unique(ia, ib, day);
        assert forall|j: int| 0 <= j < ga.len() implies (#[trigger] ga[j]).key@ == gb[j].key@
            && ga[j].entries@ == gb[j].entries@ by {
            if j < ia.len() {
                assert(ga[j] == ia[j] && gb[j] == ib[j]);
            }
        }
    }
}

/// Days in date order, each with groups in key order, are fixed by their
/// entries in order.
proof fn lemma_days_unique(ra: Seq<DisplayDirectories>, rb: Seq<DisplayDirectories>)
    requires
        days_ok(ra),
        days_ok(rb),
        flat_days(ra) == flat_days(rb),
    ensures
        same_grouping(ra, rb),
    decreases ra.len() + rb.len(),
{
    let f = flat_days(ra);
    lemma_flat_days_facts(ra, Seq::empty());
    lemma_flat_days_facts(rb, Seq::empty());
    if ra.len() > 0 && rb.len() > 0 {
        lemma_days_ok_init(ra);
        lemma_days_ok_init(rb);
        let (ia, ib) = (ra.drop_last(), rb.drop_last());
        let (la, lb) = (ra.last(), rb.last());
        let (fa, fb) = (flat_days(ia), flat_days(ib));
        let (ea, eb) = (flat_groups(la.files@, la.date@), flat_groups(lb.files@, lb.date@));
        lemma_flat_groups_facts(la.files@, la.date@, Seq::empty());
        lemma_flat_groups_facts(lb.files@, lb.date@, Seq::empty());
        assert(f == fa + ea);
        assert(f == fb + eb);
        assert(f.last() == ea.last());
        assert(f.last() == eb.last());
        let d = la.date@;
        assert(lb.date@ == d);
        lemma_flat_days_facts(ia, d);
        lemma_flat_days_facts(ib, d);
        assert forall|i: int| 0 <= i < ia.len() implies text_lt(d, (#[trigger] ia[i]).date@) by {
            assert(ia[i] == ra[i]);
        }
        assert forall|i: int| 0 <= i < ib.len() implies text_lt(d, (#[trigger] ib[i]).date@) by {
            assert(ib[i] == rb[i]);
        }
        if ea.len() < eb.len() {
            let q = f.len() - eb.len();
            assert(f[q] == fa[q]);
            assert(f[q] == eb[q - fb.len()]);
        }
        if eb.len() < ea.len() {
            let q = f.len() - ea.len();
            assert(f[q] == fb[q]);
            assert(f[q] == ea[q - fa.len()]);
        }
        assert(fa =~= f.subrange(0, fa.len() as int));
        assert(fb =~= f.subrange(0, fb.len() as int));
        assert(ea =~= f.subrange(fa.len() as int, f.len() as int));
        assert(eb =~= f.subrange(fb.len() as int, f.len() as int));
        lemma_groups_unique(la.files@, lb.files@, d);
        lemma_days_unique(ia, ib);
        assert forall|i: int| 0 <= i < ra.len() implies (#[trigger] ra[i]).date@ == rb[i].date@
            && same_groups(ra[i].files@, rb[i].files@) by {
            if i < ia.len() {
                assert(ra[i] == ia[i] && rb[i] == ib[i]);
            }
        }
    }
}

} // verus!
