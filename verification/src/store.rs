//! The result sinks, modelled on the files they mirror: the channel
//! sink with whole-run URL deduplication, and the run summary record.

use vstd::prelude::*;

use crate::external::local_timestamp;
use crate::numbers::{append_decimal, dec_digits, digit_char};
use crate::progress::RunProgress;
use crate::text::{starts_with_seq, str_starts_with};

verus! {

// ---------------------------------------------------------------------
// The channel sink.
// ---------------------------------------------------------------------
/// The URLs a scan of the sink's lines recognises: each line that
/// immediately follows a descriptor line.  `url_next` carries the scan
/// state across a split.
pub open spec fn url_scan(lines: Seq<Seq<char>>, url_next: bool) -> Set<Seq<char>>
    decreases lines.len(),
{
    if lines.len() == 0 {
        Set::empty()
    } else {
        let l = lines[0];
        let rest = lines.drop_first();
        if url_next {
            url_scan(rest, false).insert(l)
        } else if starts_with_seq(l, "#EXTINF:"@) {
            url_scan(rest, true)
        } else {
            url_scan(rest, false)
        }
    }
}

/// The scan state left after reading `lines`: whether the next line
/// would be taken as a URL.
pub open spec fn scan_flag(lines: Seq<Seq<char>>, url_next: bool) -> bool
    decreases lines.len(),
{
    if lines.len() == 0 {
        url_next
    } else {
        let l = lines[0];
        let rest = lines.drop_first();
        if url_next {
            scan_flag(rest, false)
        } else if starts_with_seq(l, "#EXTINF:"@) {
            scan_flag(rest, true)
        } else {
            scan_flag(rest, false)
        }
    }
}

/// The URLs already present in the sink.
pub open spec fn stored_urls(lines: Seq<Seq<char>>) -> Set<Seq<char>> {
    url_scan(lines, false)
}

/// The entries of `es` whose URL is not in `known`, in order.  Within
/// one call entries are filtered against the sink only, not against
/// each other.
pub open spec fn fresh_entries(es: Seq<(Seq<char>, Seq<char>)>, known: Set<Seq<char>>) -> Seq<
    (Seq<char>, Seq<char>),
>
    decreases es.len(),
{
    if es.len() == 0 {
        Seq::empty()
    } else {
        let rest = fresh_entries(es.drop_last(), known);
        if known.contains(es.last().1) {
            rest
        } else {
            rest.push(es.last())
        }
    }
}

/// The URLs of a list of entries.
pub open spec fn urls_of(es: Seq<(Seq<char>, Seq<char>)>) -> Set<Seq<char>>
    decreases es.len(),
{
    if es.len() == 0 {
        Set::empty()
    } else {
        urls_of(es.drop_last()).insert(es.last().1)
    }
}

/// The sink lines a list of entries appends: a descriptor line then a
/// URL line for each entry.
pub open spec fn entry_lines(es: Seq<(Seq<char>, Seq<char>)>) -> Seq<Seq<char>>
    decreases es.len(),
{
    if es.len() == 0 {
        Seq::empty()
    } else {
        entry_lines(es.drop_last()).push(es.last().0).push(es.last().1)
    }
}

/// What one append leaves in the sink: nothing changes when no entry
/// is fresh; otherwise the fresh entries follow the old lines, behind
/// the magic header if the sink was empty.
pub open spec fn appended_lines(
    old_lines: Seq<Seq<char>>,
    es: Seq<(Seq<char>, Seq<char>)>,
) -> Seq<Seq<char>> {
    let fresh = fresh_entries(es, stored_urls(old_lines));
    if fresh.len() == 0 {
        old_lines
    } else if old_lines.len() == 0 {
        seq!["#EXTM3U"@] + entry_lines(fresh)
    } else {
        old_lines + entry_lines(fresh)
    }
}

/// True of entries as the playlist parser produces them: every title
/// is a descriptor line.
pub open spec fn titled_entries(es: Seq<(Seq<char>, Seq<char>)>) -> bool {
    forall|i: int| 0 <= i < es.len() ==> starts_with_seq((#[trigger] es[i]).0, "#EXTINF:"@)
}

/// The append-only channel sink.  `lines` mirrors the destination
/// file; a well-formed sink leaves no dangling descriptor line.
pub struct ChannelStore {
    pub lines: Vec<String>,
}

impl ChannelStore {
    /// The sink never ends expecting a URL line.
    pub open spec fn wf(&self) -> bool {
        scan_flag(self.lines.deep_view(), false) == false
    }

    /// An empty sink, mirroring a destination not yet written.
    pub fn new() -> (r: Self)
        ensures
            r.lines.deep_view() == Seq::<Seq<char>>::empty(),
            r.wf(),
    {
        ChannelStore { lines: Vec::new() }
    }

    /// A sink primed with the lines already in the destination.
    pub fn from_lines(lines: Vec<String>) -> (r: Self)
        ensures
            r.lines == lines,
    {
        ChannelStore { lines }
    }

    /// Appends the entries whose URL the sink has never stored, behind
    /// the magic header if the sink was empty, and reports how many
    /// were appended, as [`appended_lines`] describes.
    pub fn append_channels(&mut self, channels: &Vec<(String, String)>) -> (added: usize)
        ensures
            final(self).lines.deep_view() == appended_lines(
                old(self).lines.deep_view(),
                channels.deep_view(),
            ),
            added == fresh_entries(
                channels.deep_view(),
                stored_urls(old(self).lines.deep_view()),
            ).len(),
    {
        let ghost known = stored_urls(self.lines.deep_view());
        // Recover the URLs already stored by replaying the sink scan.
        let mut urls: Vec<String> = Vec::new();
        let mut url_next = false;
        let nl = self.lines.len();
        proof {
            assert(self.lines.deep_view().skip(0) =~= self.lines.deep_view());
            assert(known.union(Set::<Seq<char>>::empty()) =~= known);
        }
        let mut i: usize = 0;
        while i < nl
            invariant
                nl == self.lines@.len(),
                i <= nl,
                known == stored_urls(self.lines.deep_view()),
                known =~= url_scan(self.lines.deep_view().skip(i as int), url_next).union(
                    urls_set(urls.deep_view()),
                ),
            decreases nl - i,
        {
            let ghost lv = self.lines.deep_view().skip(i as int);
            proof {
                assert(lv[0] == self.lines.deep_view()[i as int]);
                assert(self.lines.deep_view()[i as int] == self.lines@[i as int]@);
                assert(lv.drop_first() =~= self.lines.deep_view().skip(i as int + 1));
            }
            if url_next {
                let ghost old_urls = urls.deep_view();
                urls.push(self.lines[i].clone());
                url_next = false;
                proof {
                    assert(urls.deep_view() =~= old_urls.push(self.lines@[i as int]@));
                    assert(urls.deep_view().drop_last() =~= old_urls);
                    assert(urls.deep_view().last() == self.lines@[i as int]@);
                    assert(urls_set(urls.deep_view()) =~= urls_set(old_urls).insert(
                        self.lines@[i as int]@,
                    ));
                    assert(url_scan(lv, true).union(urls_set(old_urls)) =~= url_scan(
                        lv.drop_first(),
                        false,
                    ).union(urls_set(urls.deep_view())));
                }
            } else if str_starts_with(self.lines[i].as_str(), "#EXTINF:") {
                url_next = true;
            }
            i = i + 1;
        }
        proof {
            assert(self.lines.deep_view().skip(nl as int) =~= Seq::<Seq<char>>::empty());
            assert(known =~= urls_set(urls.deep_view()));
        }
        // Keep only the entries whose URL is new to the sink.
        let mut fresh: Vec<(String, String)> = Vec::new();
        let nc = channels.len();
        proof {
            assert(channels.deep_view().take(0) =~= Seq::<(Seq<char>, Seq<char>)>::empty());
        }
        let mut j: usize = 0;
        while j < nc
            invariant
                nc == channels@.len(),
                j <= nc,
                known =~= urls_set(urls.deep_view()),
                urls@.len() == urls.deep_view().len(),
                fresh.deep_view() == fresh_entries(channels.deep_view().take(j as int), known),
            decreases nc - j,
        {
            proof {
                assert(channels.deep_view().take(j as int + 1).drop_last() =~= channels.deep_view()
                    .take(j as int));
                assert(channels.deep_view().take(j as int + 1).last() == channels.deep_view()[j as int]);
            }
            let seen = vec_contains_string(&urls, &channels[j].1);
            proof {
                lemma_urls_set_membership(urls.deep_view(), channels.deep_view()[j as int].1);
            }
            if !seen {
                let ghost old_fresh = fresh.deep_view();
                fresh.push((channels[j].0.clone(), channels[j].1.clone()));
                proof {
                    assert(fresh.deep_view() =~= old_fresh.push(channels.deep_view()[j as int]));
                }
            }
            j = j + 1;
        }
        proof {
            assert(channels.deep_view().take(nc as int) =~= channels.deep_view());
        }
        if fresh.len() == 0 {
            return 0;
        }
        // Write the header when the destination was empty, then the
        // fresh pairs.
        let ghost base = self.lines.deep_view();
        if self.lines.len() == 0 {
            self.lines.push(String::from_str("#EXTM3U"));
            proof {
                assert(self.lines.deep_view() =~= seq!["#EXTM3U"@]);
            }
        }
        let ghost with_header = self.lines.deep_view();
        let nf = fresh.len();
        proof {
            assert(fresh.deep_view().take(0) =~= Seq::<(Seq<char>, Seq<char>)>::empty());
            assert(with_header + entry_lines(fresh.deep_view().take(0)) =~= with_header);
        }
        let mut k: usize = 0;
        while k < nf
            invariant
                nf == fresh@.len(),
                k <= nf,
                self.lines.deep_view() == with_header + entry_lines(fresh.deep_view().take(k as int)),
            decreases nf - k,
        {
            proof {
                assert(fresh.deep_view().take(k as int + 1).drop_last() =~= fresh.deep_view().take(
                    k as int,
                ));
                assert(fresh.deep_view().take(k as int + 1).last() == fresh.deep_view()[k as int]);
            }
            let ghost before = self.lines.deep_view();
            self.lines.push(fresh[k].0.clone());
            self.lines.push(fresh[k].1.clone());
            proof {
                assert(self.lines.deep_view() =~= before.push(fresh.deep_view()[k as int].0).push(
                    fresh.deep_view()[k as int].1,
                ));
                assert(self.lines.deep_view() =~= with_header + entry_lines(
                    fresh.deep_view().take(k as int + 1),
                ));
            }
            k = k + 1;
        }
        proof {
            assert(fresh.deep_view().take(nf as int) =~= fresh.deep_view());
            assert(self.lines.deep_view() =~= appended_lines(base, channels.deep_view()));
        }
        nf
    }
}

proof fn lemma_scan_append(a: Seq<Seq<char>>, b: Seq<Seq<char>>, f: bool)
    ensures
        url_scan(a + b, f) == url_scan(a, f).union(url_scan(b, scan_flag(a, f))),
        scan_flag(a + b, f) == scan_flag(b, scan_flag(a, f)),
    decreases a.len(),
{
    if a.len() == 0 {
        assert(a + b =~= b);
        assert(url_scan(a, f) =~= Set::<Seq<char>>::empty());
        assert(url_scan(a, f).union(url_scan(b, f)) =~= url_scan(b, f));
    } else {
        let rest = a.drop_first();
        assert((a + b).drop_first() =~= rest + b);
        assert((a + b)[0] == a[0]);
        if f {
            lemma_scan_append(rest, b, false);
            assert(url_scan(a + b, f) =~= url_scan(rest, false).union(
                url_scan(b, scan_flag(rest, false)),
            ).insert(a[0]));
            assert(url_scan(a, f).union(url_scan(b, scan_flag(a, f))) =~= url_scan(
                rest,
                false,
            ).insert(a[0]).union(url_scan(b, scan_flag(rest, false))));
            assert(url_scan(a + b, f) =~= url_scan(a, f).union(url_scan(b, scan_flag(a, f))));
        } else if starts_with_seq(a[0], "#EXTINF:"@) {
            lemma_scan_append(rest, b, true);
        } else {
            lemma_scan_append(rest, b, false);
        }
    }
}

proof fn lemma_entry_lines_scan(es: Seq<(Seq<char>, Seq<char>)>)
    requires
        titled_entries(es),
    ensures
        scan_flag(entry_lines(es), false) == false,
        url_scan(entry_lines(es), false) == urls_of(es),
    decreases es.len(),
{
    if es.len() == 0 {
        assert(url_scan(entry_lines(es), false) =~= urls_of(es));
    } else {
        let head = es.drop_last();
        assert forall|i: int| 0 <= i < head.len() implies starts_with_seq(
            (#[trigger] head[i]).0,
            "#EXTINF:"@,
        ) by {
            assert(head[i] == es[i]);
        }
        lemma_entry_lines_scan(head);
        let t = es.last().0;
        let u = es.last().1;
        let pair: Seq<Seq<char>> = seq![t, u];
        assert(entry_lines(es) =~= entry_lines(head) + pair);
        lemma_scan_append(entry_lines(head), pair, false);
        assert(starts_with_seq(t, "#EXTINF:"@));
        assert(pair[0] == t);
        assert(pair.drop_first() =~= seq![u]);
        let utail: Seq<Seq<char>> = seq![u];
        assert(utail[0] == u);
        assert(utail.drop_first() =~= Seq::<Seq<char>>::empty());
        assert(scan_flag(utail.drop_first(), false) == false);
        assert(scan_flag(utail, true) == false);
        assert(scan_flag(pair, false) == false);
        assert(url_scan(utail.drop_first(), false) =~= Set::<Seq<char>>::empty());
        assert(url_scan(utail, true) =~= Set::<Seq<char>>::empty().insert(u));
        assert(url_scan(pair, false) =~= Set::<Seq<char>>::empty().insert(u));
        assert(url_scan(entry_lines(es), false) =~= urls_of(head).insert(u));
    }
}

proof fn lemma_fresh_empty_iff(es: Seq<(Seq<char>, Seq<char>)>, known: Set<Seq<char>>)
    ensures
        (fresh_entries(es, known).len() == 0) == (forall|i: int|
            0 <= i < es.len() ==> known.contains((#[trigger] es[i]).1)),
    decreases es.len(),
{
    if es.len() > 0 {
        lemma_fresh_empty_iff(es.drop_last(), known);
        if fresh_entries(es, known).len() == 0 {
            assert forall|i: int| 0 <= i < es.len() implies known.contains(
                (#[trigger] es[i]).1,
            ) by {
                if i < es.len() - 1 {
                    assert(es.drop_last()[i] == es[i]);
                }
            }
        } else {
            if forall|i: int| 0 <= i < es.len() ==> known.contains((#[trigger] es[i]).1) {
                assert forall|i: int| 0 <= i < es.drop_last().len() implies known.contains(
                    (#[trigger] es.drop_last()[i]).1,
                ) by {
                    assert(es.drop_last()[i] == es[i]);
                }
                assert(known.contains(es.last().1));
                assert(false);
            }
        }
    }
}

proof fn lemma_fresh_covers(es: Seq<(Seq<char>, Seq<char>)>, known: Set<Seq<char>>, i: int)
    requires
        0 <= i < es.len(),
    ensures
        known.contains(es[i].1) || urls_of(fresh_entries(es, known)).contains(es[i].1),
    decreases es.len(),
{
    if i == es.len() - 1 {
        if !known.contains(es.last().1) {
            assert(urls_of(fresh_entries(es, known)).contains(es.last().1));
        }
    } else {
        assert(es.drop_last()[i] == es[i]);
        lemma_fresh_covers(es.drop_last(), known, i);
        if urls_of(fresh_entries(es.drop_last(), known)).contains(es[i].1) {
            lemma_urls_of_grows(fresh_entries(es.drop_last(), known), fresh_entries(es, known), es[i].1);
        }
    }
}

proof fn lemma_urls_of_grows(
    shorter: Seq<(Seq<char>, Seq<char>)>,
    longer: Seq<(Seq<char>, Seq<char>)>,
    u: Seq<char>,
)
    requires
        longer == shorter || longer == shorter.push(longer.last()),
        urls_of(shorter).contains(u),
    ensures
        urls_of(longer).contains(u),
{
    if longer != shorter {
        assert(longer.drop_last() =~= shorter);
    }
}

proof fn lemma_fresh_titled(es: Seq<(Seq<char>, Seq<char>)>, known: Set<Seq<char>>)
    requires
        titled_entries(es),
    ensures
        titled_entries(fresh_entries(es, known)),
    decreases es.len(),
{
    if es.len() > 0 {
        let head = es.drop_last();
        assert forall|i: int| 0 <= i < head.len() implies starts_with_seq(
            (#[trigger] head[i]).0,
            "#EXTINF:"@,
        ) by {
            assert(head[i] == es[i]);
        }
        lemma_fresh_titled(head, known);
        let rest = fresh_entries(head, known);
        if !known.contains(es.last().1) {
            assert forall|i: int| 0 <= i < fresh_entries(es, known).len() implies starts_with_seq(
                (#[trigger] fresh_entries(es, known)[i]).0,
                "#EXTINF:"@,
            ) by {
                if i < rest.len() {
                    assert(fresh_entries(es, known)[i] == rest[i]);
                } else {
                    assert(fresh_entries(es, known)[i] == es.last());
                    assert(es[es.len() - 1] == es.last());
                }
            }
        }
    }
}

/// Entries with pairwise distinct URLs are appended at most once each:
/// the fresh subset keeps the URLs pairwise distinct, so one append
/// writes no URL twice, and [`lemma_channel_sink_idempotent`] says a
/// repeat append writes nothing at all.
pub proof fn lemma_fresh_urls_distinct(es: Seq<(Seq<char>, Seq<char>)>, known: Set<Seq<char>>)
    requires
        forall|x: int, y: int| 0 <= x < y < es.len() ==> (#[trigger] es[x]).1 != (#[trigger] es[y]).1,
    ensures
        forall|x: int, y: int|
            0 <= x < y < fresh_entries(es, known).len() ==> (#[trigger] fresh_entries(es, known)[x]).1
                != (#[trigger] fresh_entries(es, known)[y]).1,
    decreases es.len(),
{
    if es.len() > 0 {
        let head = es.drop_last();
        assert forall|x: int, y: int| 0 <= x < y < head.len() implies (#[trigger] head[x]).1 != (
        #[trigger] head[y]).1 by {
            assert(head[x] == es[x]);
            assert(head[y] == es[y]);
        }
        lemma_fresh_urls_distinct(head, known);
        let rest = fresh_entries(head, known);
        if !known.contains(es.last().1) {
            lemma_fresh_in_input(head, known);
            assert forall|x: int, y: int|
                0 <= x < y < fresh_entries(es, known).len() implies (#[trigger] fresh_entries(
                es,
                known,
            )[x]).1 != (#[trigger] fresh_entries(es, known)[y]).1 by {
                if y < rest.len() {
                    assert(fresh_entries(es, known)[x] == rest[x]);
                    assert(fresh_entries(es, known)[y] == rest[y]);
                } else {
                    assert(fresh_entries(es, known)[x] == rest[x]);
                    assert(fresh_entries(es, known)[y] == es.last());
                    let w = choose|w: int| 0 <= w < head.len() && head[w] == rest[x];
                    assert(es[w] == rest[x]);
                    assert(es[es.len() - 1] == es.last());
                }
            }
        }
    }
}

proof fn lemma_fresh_in_input(es: Seq<(Seq<char>, Seq<char>)>, known: Set<Seq<char>>)
    ensures
        forall|j: int|
            0 <= j < fresh_entries(es, known).len() ==> exists|w: int|
                0 <= w < es.len() && es[w] == #[trigger] fresh_entries(es, known)[j],
    decreases es.len(),
{
    if es.len() > 0 {
        let head = es.drop_last();
        lemma_fresh_in_input(head, known);
        let rest = fresh_entries(head, known);
        assert forall|j: int| 0 <= j < fresh_entries(es, known).len() implies exists|w: int|
            0 <= w < es.len() && es[w] == #[trigger] fresh_entries(es, known)[j] by {
            if j < rest.len() {
                assert(fresh_entries(es, known)[j] == rest[j]);
                let w = choose|w: int| 0 <= w < head.len() && head[w] == rest[j];
                assert(es[w] == rest[j]);
            } else {
                assert(fresh_entries(es, known)[j] == es.last());
                assert(es[es.len() - 1] == es.last());
            }
        }
    }
}

/// What the sink stores after one append: every URL already stored and
/// every freshly appended URL; and the sink stays well formed.
pub proof fn lemma_appended_stored(lines: Seq<Seq<char>>, es: Seq<(Seq<char>, Seq<char>)>)
    requires
        scan_flag(lines, false) == false,
        titled_entries(es),
    ensures
        stored_urls(appended_lines(lines, es)) == stored_urls(lines).union(
            urls_of(fresh_entries(es, stored_urls(lines))),
        ),
        scan_flag(appended_lines(lines, es), false) == false,
{
    let known = stored_urls(lines);
    let fresh = fresh_entries(es, known);
    lemma_fresh_titled(es, known);
    lemma_entry_lines_scan(fresh);
    if fresh.len() == 0 {
        assert(urls_of(fresh) =~= Set::<Seq<char>>::empty());
        assert(known.union(urls_of(fresh)) =~= known);
    } else if lines.len() == 0 {
        let hdr: Seq<Seq<char>> = seq!["#EXTM3U"@];
        lemma_scan_append(hdr, entry_lines(fresh), false);
        reveal_strlit("#EXTM3U");
        reveal_strlit("#EXTINF:");
        assert(!starts_with_seq("#EXTM3U"@, "#EXTINF:"@));
        assert(hdr[0] == "#EXTM3U"@);
        assert(hdr.drop_first() =~= Seq::<Seq<char>>::empty());
        assert(scan_flag(hdr.drop_first(), false) == false);
        assert(scan_flag(hdr, false) == false);
        assert(url_scan(hdr.drop_first(), false) =~= Set::<Seq<char>>::empty());
        assert(url_scan(hdr, false) =~= Set::<Seq<char>>::empty());
        assert(stored_urls(lines) =~= Set::<Seq<char>>::empty());
        assert(stored_urls(appended_lines(lines, es)) =~= known.union(urls_of(fresh)));
    } else {
        lemma_scan_append(lines, entry_lines(fresh), false);
    }
}

/// Channel sink idempotence: once a list of entries has been appended,
/// appending the same list again stores nothing new and leaves the
/// sink unchanged.
pub proof fn lemma_channel_sink_idempotent(lines: Seq<Seq<char>>, es: Seq<(Seq<char>, Seq<char>)>)
    requires
        scan_flag(lines, false) == false,
        titled_entries(es),
    ensures
        fresh_entries(es, stored_urls(appended_lines(lines, es))).len() == 0,
        appended_lines(appended_lines(lines, es), es) == appended_lines(lines, es),
{
    let known = stored_urls(lines);
    let after = appended_lines(lines, es);
    lemma_appended_stored(lines, es);
    assert forall|i: int| 0 <= i < es.len() implies stored_urls(after).contains(
        (#[trigger] es[i]).1,
    ) by {
        lemma_fresh_covers(es, known, i);
    }
    lemma_fresh_empty_iff(es, stored_urls(after));
}

// ---------------------------------------------------------------------
// The run summary.
// ---------------------------------------------------------------------
/// A hexadecimal digit, lowercase.
pub open spec fn hex_digit(d: nat) -> char {
    if d < 10 {
        digit_char(d)
    } else if d == 10 {
        'a'
    } else if d == 11 {
        'b'
    } else if d == 12 {
        'c'
    } else if d == 13 {
        'd'
    } else if d == 14 {
        'e'
    } else {
        'f'
    }
}

/// How one character reads inside a JSON string literal.
pub open spec fn json_escape_char(c: char) -> Seq<char> {
    if c == '"' {
        seq!['\\', '"']
    } else if c == '\\' {
        seq!['\\', '\\']
    } else if c == '\u{8}' {
        seq!['\\', 'b']
    } else if c == '\t' {
        seq!['\\', 't']
    } else if c == '\n' {
        seq!['\\', 'n']
    } else if c == '\u{c}' {
        seq!['\\', 'f']
    } else if c == '\r' {
        seq!['\\', 'r']
    } else if (c as u32) < 32 {
        seq!['\\', 'u', '0', '0', hex_digit((c as u32 / 16) as nat), hex_digit(
            (c as u32 % 16) as nat,
        )]
    } else {
        seq![c]
    }
}

/// How a whole string reads inside a JSON string literal.
pub open spec fn json_escape_spec(s: Seq<char>) -> Seq<char>
    decreases s.len(),
{
    if s.len() == 0 {
        Seq::empty()
    } else {
        json_escape_spec(s.drop_last()) + json_escape_char(s.last())
    }
}

/// The two-character string for an escape sequence.
fn escape_pair(second: char) -> (r: String)
    requires
        second == '"' || second == '\\' || second == 'b' || second == 't' || second == 'n'
            || second == 'f' || second == 'r',
    ensures
        r@ =~= seq!['\\', second],
{
    proof {
        reveal_strlit("\\\"");
        reveal_strlit("\\\\");
        reveal_strlit("\\b");
        reveal_strlit("\\t");
        reveal_strlit("\\n");
        reveal_strlit("\\f");
        reveal_strlit("\\r");
    }
    if second == '"' {
        String::from_str("\\\"")
    } else if second == '\\' {
        String::from_str("\\\\")
    } else if second == 'b' {
        String::from_str("\\b")
    } else if second == 't' {
        String::from_str("\\t")
    } else if second == 'n' {
        String::from_str("\\n")
    } else if second == 'f' {
        String::from_str("\\f")
    } else {
        String::from_str("\\r")
    }
}

/// The one-character string for a hexadecimal digit value.
fn hex_str(d: u32) -> (r: &'static str)
    requires
        d < 16,
    ensures
        r@ =~= seq![hex_digit(d as nat)],
{
    proof {
        reveal_strlit("a");
        reveal_strlit("b");
        reveal_strlit("c");
        reveal_strlit("d");
        reveal_strlit("e");
        reveal_strlit("f");
    }
    if d < 10 {
        crate::numbers::digit_str(d as u64)
    } else if d == 10 {
        "a"
    } else if d == 11 {
        "b"
    } else if d == 12 {
        "c"
    } else if d == 13 {
        "d"
    } else if d == 14 {
        "e"
    } else {
        "f"
    }
}

/// Escapes `s` for use inside a JSON string literal, as
/// [`json_escape_spec`] describes.
pub fn json_escape(s: &str) -> (r: String)
    ensures
        r@ == json_escape_spec(s@),
{
    let n = s.unicode_len();
    let mut out = String::new();
    proof {
        assert(s@.subrange(0, 0) =~= Seq::<char>::empty());
        assert(out@ =~= json_escape_spec(s@.subrange(0, 0)));
    }
    let mut i: usize = 0;
    while i < n
        invariant
            n == s@.len(),
            i <= n,
            out@ == json_escape_spec(s@.subrange(0, i as int)),
        decreases n - i,
    {
        let c = s.get_char(i);
        proof {
            assert(s@.subrange(0, i as int + 1).drop_last() =~= s@.subrange(0, i as int));
            assert(s@.subrange(0, i as int + 1).last() == s@[i as int]);
        }
        if c == '"' {
            out.append(escape_pair('"').as_str());
        } else if c == '\\' {
            out.append(escape_pair('\\').as_str());
        } else if c == '\u{8}' {
            out.append(escape_pair('b').as_str());
        } else if c == '\t' {
            out.append(escape_pair('t').as_str());
        } else if c == '\n' {
            out.append(escape_pair('n').as_str());
        } else if c == '\u{c}' {
            out.append(escape_pair('f').as_str());
        } else if c == '\r' {
            out.append(escape_pair('r').as_str());
        } else if (c as u32) < 32 {
            proof {
                reveal_strlit("\\u00");
            }
            out.append("\\u00");
            out.append(hex_str(c as u32 / 16));
            out.append(hex_str(c as u32 % 16));
            proof {
                assert(out@ =~= json_escape_spec(s@.subrange(0, i as int + 1)));
            }
        } else {
            let piece = s.substring_char(i, i + 1);
            out.append(piece);
            proof {
                assert(piece@ =~= seq![s@[i as int]]);
            }
        }
        proof {
            assert(out@ =~= json_escape_spec(s@.subrange(0, i as int + 1)));
        }
        i = i + 1;
    }
    proof {
        assert(s@.subrange(0, n as int) =~= s@);
    }
    out
}

/// One server entry of the summary list: the key in quotes, escaped.
pub open spec fn quoted_item(s: Seq<char>) -> Seq<char> {
    seq!['"'] + json_escape_spec(s) + seq!['"']
}

/// The summary's server list: quoted entries joined by commas.
pub open spec fn quoted_list(ss: Seq<Seq<char>>) -> Seq<char>
    decreases ss.len(),
{
    if ss.len() == 0 {
        Seq::empty()
    } else if ss.len() == 1 {
        quoted_item(ss[0])
    } else {
        quoted_list(ss.drop_last()) + seq![','] + quoted_item(ss.last())
    }
}

/// The run summary record: timestamp, totals, and the discovered
/// servers, serialised as one JSON object.
pub open spec fn spec_summary_json(
    ts: Seq<char>,
    checked: nat,
    servers_found: nat,
    channels_found: nat,
    servers: Seq<Seq<char>>,
) -> Seq<char> {
    "{\"scan_date\":\""@ + json_escape_spec(ts) + "\",\"total_checked\":"@ + dec_digits(checked)
        + ",\"servers_found\":"@ + dec_digits(servers_found) + ",\"channels_found\":"@
        + dec_digits(channels_found) + ",\"found_servers\":["@ + quoted_list(servers) + "]}"@
}

/// Appends one quoted, escaped server entry.
fn append_quoted(out: &mut String, s: &String)
    ensures
        final(out)@ == old(out)@ + quoted_item(s@),
{
    proof {
        reveal_strlit("\"");
    }
    out.append("\"");
    let escaped = json_escape(s.as_str());
    out.append(escaped.as_str());
    out.append("\"");
    proof {
        assert(final(out)@ =~= old(out)@ + quoted_item(s@));
    }
}

/// Renders the run summary for a known timestamp, as
/// [`spec_summary_json`] describes.
pub fn render_summary_with(
    ts: &str,
    checked: usize,
    servers_found: usize,
    channels_found: usize,
    servers: &Vec<String>,
) -> (r: String)
    ensures
        r@ == spec_summary_json(
            ts@,
            checked as nat,
            servers_found as nat,
            channels_found as nat,
            servers.deep_view(),
        ),
{
    let mut out = String::from_str("{\"scan_date\":\"");
    let escaped = json_escape(ts);
    out.append(escaped.as_str());
    out.append("\",\"total_checked\":");
    append_decimal(&mut out, checked as u64);
    out.append(",\"servers_found\":");
    append_decimal(&mut out, servers_found as u64);
    out.append(",\"channels_found\":");
    append_decimal(&mut out, channels_found as u64);
    out.append(",\"found_servers\":[");
    let ghost list_start = out@;
    let n = servers.len();
    proof {
        assert(servers.deep_view().take(0) =~= Seq::<Seq<char>>::empty());
        assert(out@ =~= list_start + quoted_list(servers.deep_view().take(0)));
    }
    let mut i: usize = 0;
    while i < n
        invariant
            n == servers@.len(),
            i <= n,
            out@ == list_start + quoted_list(servers.deep_view().take(i as int)),
        decreases n - i,
    {
        proof {
            assert(servers.deep_view().take(i as int + 1).drop_last() =~= servers.deep_view().take(
                i as int,
            ));
            assert(servers.deep_view().take(i as int + 1).last() == servers.deep_view()[i as int]);
            assert(servers.deep_view()[i as int] == servers@[i as int]@);
        }
        if i > 0 {
            proof {
                reveal_strlit(",");
            }
            out.append(",");
        }
        append_quoted(&mut out, &servers[i]);
        proof {
            assert(out@ =~= list_start + quoted_list(servers.deep_view().take(i as int + 1)));
        }
        i = i + 1;
    }
    out.append("]}");
    proof {
        assert(servers.deep_view().take(n as int) =~= servers.deep_view());
        assert(out@ =~= spec_summary_json(
            ts@,
            checked as nat,
            servers_found as nat,
            channels_found as nat,
            servers.deep_view(),
        ));
    }
    out
}

/// Renders the run summary stamped with the current local time.  The
/// timestamp comes from the clock, so the contract only promises that
/// the result is the summary record for some timestamp.
pub fn render_summary(progress: &RunProgress, servers: &Vec<String>) -> (r: String)
    ensures
        exists|ts: Seq<char>|
            r@ == spec_summary_json(
                ts,
                progress.checked as nat,
                progress.servers_found as nat,
                progress.channels_found as nat,
                servers.deep_view(),
            ),
{
    let ts = local_timestamp();
    let r = render_summary_with(
        ts.as_str(),
        progress.checked,
        progress.servers_found,
        progress.channels_found,
        servers,
    );
    proof {
        assert(r@ == spec_summary_json(
            ts@,
            progress.checked as nat,
            progress.servers_found as nat,
            progress.channels_found as nat,
            servers.deep_view(),
        ));
    }
    r
}

/// The set of views of a vector of URL strings.
pub open spec fn urls_set(us: Seq<Seq<char>>) -> Set<Seq<char>>
    decreases us.len(),
{
    if us.len() == 0 {
        Set::empty()
    } else {
        urls_set(us.drop_last()).insert(us.last())
    }
}

proof fn lemma_urls_set_membership(us: Seq<Seq<char>>, u: Seq<char>)
    ensures
        urls_set(us).contains(u) == (exists|x: int| 0 <= x < us.len() && us[x] == u),
    decreases us.len(),
{
    if us.len() > 0 {
        lemma_urls_set_membership(us.drop_last(), u);
        if urls_set(us).contains(u) {
            if us.last() == u {
                assert(us[us.len() - 1] == u);
            } else {
                let x = choose|x: int| 0 <= x < us.drop_last().len() && us.drop_last()[x] == u;
                assert(us[x] == u);
            }
        }
        if exists|x: int| 0 <= x < us.len() && us[x] == u {
            let x = choose|x: int| 0 <= x < us.len() && us[x] == u;
            if x < us.len() - 1 {
                assert(us.drop_last()[x] == u);
            }
        }
    }
}

/// Linear membership test against the collected URL strings.
fn vec_contains_string(v: &Vec<String>, s: &String) -> (r: bool)
    ensures
        r == (exists|x: int| 0 <= x < v.deep_view().len() && v.deep_view()[x] == s@),
{
    let n = v.len();
    let mut i: usize = 0;
    while i < n
        invariant
            n == v@.len(),
            i <= n,
            forall|x: int| 0 <= x < i ==> v.deep_view()[x] != s@,
        decreases n - i,
    {
        if v[i].eq(s) {
            proof {
                assert(v.deep_view()[i as int] == v@[i as int]@);
            }
            return true;
        }
        proof {
            assert(v.deep_view()[i as int] == v@[i as int]@);
        }
        i = i + 1;
    }
    false
}

} // verus!
