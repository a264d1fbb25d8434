//! Playlist handling: parsing channel entries out of extended-playlist
//! text and deciding which entries count as working.

use vstd::prelude::*;

use crate::external::{lower_of, lowercase};
use crate::text::{
    contains_seq, last_index_of, lemma_last_index_of_at, split_into_lines, split_lines,
    starts_with_seq, str_contains, str_starts_with, trim_spec, trim_str,
};

verus! {

/// One left-to-right pass over playlist lines with a one-slot pending
/// title: a descriptor line loads the slot, a URL line pairs with a
/// loaded slot and clears it, and every other line leaves it alone.
pub open spec fn playlist_scan(lines: Seq<Seq<char>>, pending: Seq<char>) -> Seq<
    (Seq<char>, Seq<char>),
>
    decreases lines.len(),
{
    if lines.len() == 0 {
        Seq::empty()
    } else {
        let l = lines[0];
        let rest = lines.drop_first();
        if starts_with_seq(l, "#EXTINF:"@) {
            playlist_scan(rest, l)
        } else if (starts_with_seq(l, "http://"@) || starts_with_seq(l, "https://"@))
            && pending.len() > 0 {
            seq![(pending, l)] + playlist_scan(rest, Seq::empty())
        } else {
            playlist_scan(rest, pending)
        }
    }
}

/// The channel entries of a playlist: title and URL pairs, in order.
pub open spec fn spec_parse_playlist(content: Seq<char>) -> Seq<(Seq<char>, Seq<char>)> {
    playlist_scan(split_lines(content), Seq::empty())
}

/// Parses playlist text into (title, URL) channel entries, as
/// [`spec_parse_playlist`] describes: a dangling title with no URL is
/// discarded, and a URL with no pending title is discarded.
pub fn parse_playlist(content: &str) -> (r: Vec<(String, String)>)
    ensures
        r.deep_view() == spec_parse_playlist(content@),
{
    let lines = split_into_lines(content);
    let mut channels: Vec<(String, String)> = Vec::new();
    let mut current_title = String::new();
    let n = lines.len();
    proof {
        assert(lines.deep_view().skip(0) =~= lines.deep_view());
        assert(channels.deep_view() + playlist_scan(lines.deep_view(), current_title@)
            =~= spec_parse_playlist(content@));
    }
    let mut i: usize = 0;
    while i < n
        invariant
            n == lines@.len(),
            lines.deep_view() == split_lines(content@),
            i <= n,
            spec_parse_playlist(content@) == channels.deep_view() + playlist_scan(
                lines.deep_view().skip(i as int),
                current_title@,
            ),
        decreases n - i,
    {
        let ghost lv = lines.deep_view().skip(i as int);
        proof {
            assert(lv[0] == lines.deep_view()[i as int]);
            assert(lines.deep_view()[i as int] == lines@[i as int]@);
            assert(lv.drop_first() =~= lines.deep_view().skip(i as int + 1));
        }
        let line = &lines[i];
        if str_starts_with(line.as_str(), "#EXTINF:") {
            current_title = line.clone();
        } else if str_starts_with(line.as_str(), "http://") || str_starts_with(
            line.as_str(),
            "https://",
        ) {
            if !current_title.as_str().is_empty() {
                let ghost old_channels = channels.deep_view();
                let ghost old_title = current_title@;
                channels.push((current_title.clone(), line.clone()));
                current_title = String::new();
                proof {
                    assert(channels.deep_view() =~= old_channels.push((old_title, lines@[i as int]@)));
                    assert(old_channels + (seq![(old_title, lines@[i as int]@)] + playlist_scan(
                        lines.deep_view().skip(i as int + 1),
                        Seq::empty(),
                    )) =~= channels.deep_view() + playlist_scan(
                        lines.deep_view().skip(i as int + 1),
                        Seq::empty(),
                    ));
                }
            }
        }
        i = i + 1;
    }
    proof {
        assert(lines.deep_view().skip(n as int) =~= Seq::<Seq<char>>::empty());
        assert(channels.deep_view() + playlist_scan(Seq::empty(), current_title@)
            =~= channels.deep_view());
    }
    channels
}

/// The channel name carried by a descriptor line: whatever follows the
/// last comma, trimmed; a line with no comma is its own name.
pub open spec fn spec_extract_channel_name(s: Seq<char>) -> Seq<char> {
    let p = last_index_of(s, ',');
    if p < 0 {
        s
    } else {
        trim_spec(s.subrange(p + 1, s.len() as int))
    }
}

/// Extracts the channel name from a descriptor line, as
/// [`spec_extract_channel_name`] describes.
pub fn extract_channel_name(extinf: &str) -> (r: String)
    ensures
        r@ == spec_extract_channel_name(extinf@),
{
    let n = extinf.unicode_len();
    let mut j: usize = n;
    while j > 0
        invariant
            n == extinf@.len(),
            j <= n,
            forall|k: int| j <= k < n ==> #[trigger] extinf@[k] != ',',
        decreases j,
    {
        if extinf.get_char(j - 1) == ',' {
            proof {
                lemma_last_index_of_at(extinf@, ',', j - 1);
            }
            let piece = extinf.substring_char(j, n);
            return trim_str(piece);
        }
        j = j - 1;
    }
    proof {
        lemma_last_index_of_at(extinf@, ',', -1);
    }
    extinf.to_owned()
}

/// The display title of a descriptor line: whatever follows the first
/// comma, trimmed, with a fixed fallback when there is no comma or
/// nothing follows it.
pub open spec fn spec_extract_channel_title(s: Seq<char>) -> Seq<char> {
    let p = crate::text::first_index_of(s, ',');
    if p + 1 < s.len() {
        trim_spec(s.subrange(p as int + 1, s.len() as int))
    } else {
        "Canal sin nombre"@
    }
}

/// Extracts the display title from a descriptor line, as
/// [`spec_extract_channel_title`] describes.
pub fn extract_channel_title(extinf_line: &str) -> (r: String)
    ensures
        r@ == spec_extract_channel_title(extinf_line@),
{
    let n = extinf_line.unicode_len();
    let mut i: usize = 0;
    while i < n
        invariant
            n == extinf_line@.len(),
            i <= n,
            forall|k: int| 0 <= k < i ==> #[trigger] extinf_line@[k] != ',',
        decreases n - i,
    {
        if extinf_line.get_char(i) == ',' {
            proof {
                crate::text::lemma_first_index_of_at(extinf_line@, ',', i as int);
            }
            if i + 1 < n {
                let piece = extinf_line.substring_char(i + 1, n);
                return trim_str(piece);
            }
            return String::from_str("Canal sin nombre");
        }
        i = i + 1;
    }
    proof {
        crate::text::lemma_first_index_of_at(extinf_line@, ',', n as int);
    }
    String::from_str("Canal sin nombre")
}

/// Accepts a fetched playlist body only when it carries the playlist
/// magic marker, and parses its channel entries.
pub fn evaluate_playlist(body: &str) -> (r: Option<Vec<(String, String)>>)
    ensures
        match r {
            Some(cs) => contains_seq(body@, "#EXTM3U"@) && cs.deep_view() == spec_parse_playlist(
                body@,
            ),
            None => !contains_seq(body@, "#EXTM3U"@),
        },
{
    if str_contains(body, "#EXTM3U") {
        Some(parse_playlist(body))
    } else {
        None
    }
}

/// True when a channel URL is itself a playlist manifest, judged on
/// its lowercase form.
pub fn is_manifest_url(url: &str) -> (r: bool)
    ensures
        r == contains_seq(lower_of(url@), ".m3u8"@),
{
    let lowered = lowercase(url);
    str_contains(lowered.as_str(), ".m3u8")
}

/// The reachability verdict for one channel: a successful lightweight
/// probe suffices; otherwise a fallback body fetch counts only for
/// non-manifest URLs and only if it returned at least one byte.
pub fn channel_verdict(
    head_success: bool,
    url_is_manifest: bool,
    get_success: bool,
    get_nonempty: bool,
) -> (r: bool)
    ensures
        r == (head_success || (!url_is_manifest && get_success && get_nonempty)),
{
    head_success || (!url_is_manifest && get_success && get_nonempty)
}

/// The entries kept by the verifier: those whose probe verdict is true.
pub open spec fn kept_entries(es: Seq<(Seq<char>, Seq<char>)>, vs: Seq<bool>) -> Seq<
    (Seq<char>, Seq<char>),
>
    recommends
        es.len() == vs.len(),
    decreases es.len(),
{
    if es.len() == 0 {
        Seq::empty()
    } else {
        let rest = kept_entries(es.drop_last(), vs.drop_last());
        if vs.last() {
            rest.push(es.last())
        } else {
            rest
        }
    }
}

/// Keeps the entries whose verdict is true, in order, as
/// [`kept_entries`] describes.
pub fn filter_working(entries: &Vec<(String, String)>, verdicts: &Vec<bool>) -> (r: Vec<
    (String, String),
>)
    requires
        entries@.len() == verdicts@.len(),
    ensures
        r.deep_view() == kept_entries(entries.deep_view(), verdicts@),
{
    let mut out: Vec<(String, String)> = Vec::new();
    let n = entries.len();
    proof {
        assert(entries.deep_view().take(0) =~= Seq::<(Seq<char>, Seq<char>)>::empty());
        assert(verdicts@.take(0) =~= Seq::<bool>::empty());
    }
    let mut i: usize = 0;
    while i < n
        invariant
            n == entries@.len() == verdicts@.len(),
            i <= n,
            out.deep_view() == kept_entries(entries.deep_view().take(i as int), verdicts@.take(i as int)),
        decreases n - i,
    {
        proof {
            assert(entries.deep_view().take(i as int + 1).drop_last() =~= entries.deep_view().take(
                i as int,
            ));
            assert(verdicts@.take(i as int + 1).drop_last() =~= verdicts@.take(i as int));
            assert(entries.deep_view().take(i as int + 1).last() == entries.deep_view()[i as int]);
        }
        if verdicts[i] {
            let ghost old_out = out.deep_view();
            let pair = (entries[i].0.clone(), entries[i].1.clone());
            out.push(pair);
            proof {
                assert(out.deep_view() =~= old_out.push(entries.deep_view()[i as int]));
            }
        }
        i = i + 1;
    }
    proof {
        assert(entries.deep_view().take(n as int) =~= entries.deep_view());
        assert(verdicts@.take(n as int) =~= verdicts@);
    }
    out
}

/// Distinct entries stay distinct through the verifier: the kept
/// subset holds no entry twice.
pub proof fn lemma_kept_entries_distinct(es: Seq<(Seq<char>, Seq<char>)>, vs: Seq<bool>)
    requires
        es.len() == vs.len(),
        forall|x: int, y: int| 0 <= x < y < es.len() ==> es[x] != es[y],
    ensures
        forall|x: int, y: int|
            0 <= x < y < kept_entries(es, vs).len() ==> kept_entries(es, vs)[x] != kept_entries(
                es,
                vs,
            )[y],
    decreases es.len(),
{
    if es.len() > 0 {
        let head = es.drop_last();
        assert forall|x: int, y: int| 0 <= x < y < head.len() implies head[x] != head[y] by {
            assert(head[x] == es[x]);
            assert(head[y] == es[y]);
        }
        lemma_kept_entries_distinct(head, vs.drop_last());
        let rest = kept_entries(head, vs.drop_last());
        if vs.last() {
            lemma_kept_entries_from_input(head, vs.drop_last());
            assert forall|x: int, y: int|
                0 <= x < y < kept_entries(es, vs).len() implies kept_entries(es, vs)[x]
                != kept_entries(es, vs)[y] by {
                if y < rest.len() {
                    assert(kept_entries(es, vs)[x] == rest[x]);
                    assert(kept_entries(es, vs)[y] == rest[y]);
                } else {
                    // the new last entry differs from everything kept
                    // before it, because those all come from the head
                    assert(kept_entries(es, vs)[x] == rest[x]);
                    assert(kept_entries(es, vs)[y] == es.last());
                    assert(head.contains(rest[x]));
                    let w = choose|w: int| 0 <= w < head.len() && head[w] == rest[x];
                    assert(es[w] == rest[x]);
                    assert(es[es.len() - 1] == es.last());
                }
            }
        }
    }
}

/// Every kept entry is one of the input entries: the verifier never
/// invents a channel.
pub proof fn lemma_kept_entries_from_input(es: Seq<(Seq<char>, Seq<char>)>, vs: Seq<bool>)
    requires
        es.len() == vs.len(),
    ensures
        forall|j: int|
            0 <= j < kept_entries(es, vs).len() ==> es.contains(#[trigger] kept_entries(es, vs)[j]),
    decreases es.len(),
{
    if es.len() > 0 {
        lemma_kept_entries_from_input(es.drop_last(), vs.drop_last());
        let rest = kept_entries(es.drop_last(), vs.drop_last());
        assert forall|j: int| 0 <= j < kept_entries(es, vs).len() implies es.contains(
            #[trigger] kept_entries(es, vs)[j],
        ) by {
            if j < rest.len() {
                assert(es.drop_last().contains(rest[j]));
                let w = choose|w: int| 0 <= w < es.drop_last().len() && es.drop_last()[w] == rest[j];
                assert(es[w] == rest[j]);
            } else {
                assert(kept_entries(es, vs)[j] == es.last());
                assert(es[es.len() - 1] == es.last());
            }
        }
    }
}

} // verus!
