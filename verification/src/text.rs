//! Title and artist clean-up: from a media snapshot to the text on screen.

use vstd::prelude::*;
use vstd::std_specs::iter::IteratorSpec;
use vstd::string::StrSliceExecFns;
use vstd::string::StringExecFns;
use crate::media::{MediaInfo, MediaInfoView, MediaStatus};
use crate::settings::Settings;

verus! {

/// The characters with the Unicode property `White_Space`.
pub open spec fn spec_is_whitespace(c: char) -> bool {
    let u = c as u32;
    ||| 0x09 <= u <= 0x0d
    ||| u == 0x20
    ||| u == 0x85
    ||| u == 0xa0
    ||| u == 0x1680
    ||| 0x2000 <= u <= 0x200a
    ||| u == 0x2028
    ||| u == 0x2029
    ||| u == 0x202f
    ||| u == 0x205f
    ||| u == 0x3000
}

/// Whether `c` is whitespace.
pub fn is_whitespace(c: char) -> (white: bool)
    ensures
        white == spec_is_whitespace(c),
{
    let u: u32 = c as u32;
    (0x09 <= u && u <= 0x0d) || u == 0x20 || u == 0x85 || u == 0xa0 || u == 0x1680 || (0x2000
        <= u && u <= 0x200a) || u == 0x2028 || u == 0x2029 || u == 0x202f || u == 0x205f || u
        == 0x3000
}

/// The whitespace characters as a set.
pub open spec fn whitespace() -> Set<char> {
    Set::new(|c: char| spec_is_whitespace(c))
}

/// `s` without the characters of `strip` at its start.
pub open spec fn trim_start(s: Seq<char>, strip: Set<char>) -> Seq<char>
    decreases s.len(),
{
    if s.len() > 0 && strip.contains(s[0]) {
        trim_start(s.drop_first(), strip)
    } else {
        s
    }
}

/// `s` without the characters of `strip` at its end.
pub open spec fn trim_end(s: Seq<char>, strip: Set<char>) -> Seq<char>
    decreases s.len(),
{
    if s.len() > 0 && strip.contains(s.last()) {
        trim_end(s.drop_last(), strip)
    } else {
        s
    }
}

/// `s` without the characters of `strip` at both ends.
pub open spec fn trim_matches(s: Seq<char>, strip: Set<char>) -> Seq<char> {
    trim_end(trim_start(s, strip), strip)
}

/// `s` without leading and trailing whitespace.
pub open spec fn spec_trim(s: Seq<char>) -> Seq<char> {
    trim_matches(s, whitespace())
}

/// Whether `s` starts with `prefix`.
pub open spec fn has_prefix(s: Seq<char>, prefix: Seq<char>) -> bool {
    prefix.len() <= s.len() && s.subrange(0, prefix.len() as int) == prefix
}

/// Whether `s` ends with `suffix`.
pub open spec fn has_suffix(s: Seq<char>, suffix: Seq<char>) -> bool {
    suffix.len() <= s.len() && s.subrange(s.len() - suffix.len(), s.len() as int) == suffix
}

/// `s` without `prefix` at its start, if it starts with it.
pub open spec fn strip_prefix(s: Seq<char>, prefix: Seq<char>) -> Seq<char> {
    if has_prefix(s, prefix) {
        s.subrange(prefix.len() as int, s.len() as int)
    } else {
        s
    }
}

/// `s` without `suffix` at its end, if it ends with it.
pub open spec fn strip_suffix(s: Seq<char>, suffix: Seq<char>) -> Seq<char> {
    if has_suffix(s, suffix) {
        s.subrange(0, s.len() - suffix.len())
    } else {
        s
    }
}

/// The suffix `" - Topic"` that some platforms append to the name of an
/// artist's channel.
pub open spec fn topic_suffix() -> Seq<char> {
    seq![' ', '-', ' ', 'T', 'o', 'p', 'i', 'c']
}

/// The separator `" - "` between artist and title.
pub open spec fn separator() -> Seq<char> {
    seq![' ', '-', ' ']
}

/// A note, a tilde and three thin spaces.
pub open spec fn playing_cue() -> Seq<char> {
    seq!['\u{266a}', '~', '\u{2009}', '\u{2009}', '\u{2009}']
}

/// A pause sign, a tilde and three thin spaces.
pub open spec fn paused_cue() -> Seq<char> {
    seq!['\u{23f8}', '~', '\u{2009}', '\u{2009}', '\u{2009}']
}

/// The artist as shown: trimmed, and without the channel suffix.
pub open spec fn shown_artist(artist: Seq<char>) -> Seq<char> {
    strip_suffix(spec_trim(artist), topic_suffix())
}

/// The title as shown: trimmed, and without one leading `"<artist> - "`
/// and one trailing `" - <artist>"` where both texts are present.
pub open spec fn shown_title(title: Seq<char>, artist: Seq<char>) -> Seq<char> {
    let t = spec_trim(title);
    let a = shown_artist(artist);
    if a.len() > 0 && t.len() > 0 {
        strip_suffix(strip_prefix(t, a + separator()), separator() + a)
    } else {
        t
    }
}

/// The status glyph that leads the text. Playing is always marked;
/// paused only where the playback status is to be shown.
pub open spec fn status_cue(show_playback_status: bool, status: MediaStatus) -> Seq<char> {
    match status {
        MediaStatus::Playing => playing_cue(),
        MediaStatus::Paused => if show_playback_status {
            paused_cue()
        } else {
            Seq::empty()
        },
        MediaStatus::Stopped => Seq::empty(),
    }
}

/// The text on screen for a snapshot: nothing when stopped; otherwise
/// the status glyph, the title, and on a second line the artist where it
/// is wanted and known.
pub open spec fn spec_format_media_text(settings: Settings, media: MediaInfoView) -> Seq<char> {
    if media.status == MediaStatus::Stopped {
        Seq::empty()
    } else {
        let artist = shown_artist(media.artist);
        let head = status_cue(settings.show_playback_status, media.status) + shown_title(
            media.title,
            media.artist,
        );
        if settings.show_artist_name && artist.len() > 0 {
            if head.len() > 0 {
                head + seq!['\n'] + artist
            } else {
                artist
            }
        } else {
            head
        }
    }
}

/// Trimming the start leaves what follows the first character that is
/// not stripped.
pub proof fn lemma_trim_start(s: Seq<char>, strip: Set<char>, i: int)
    requires
        0 <= i <= s.len(),
        forall|k: int| 0 <= k < i ==> strip.contains(#[trigger] s[k]),
        i < s.len() ==> !strip.contains(s[i]),
    ensures
        trim_start(s, strip) == s.subrange(i, s.len() as int),
    decreases i,
{
    if i == 0 {
        assert(s.subrange(0, s.len() as int) =~= s);
    } else {
        let rest = s.drop_first();
        assert forall|k: int| 0 <= k < i - 1 implies strip.contains(#[trigger] rest[k]) by {
            assert(rest[k] == s[k + 1]);
        }
        lemma_trim_start(rest, strip, i - 1);
        assert(rest.subrange(i - 1, rest.len() as int) =~= s.subrange(i, s.len() as int));
    }
}

/// Trimming the end leaves what precedes the last character that is not
/// stripped, and that character.
pub proof fn lemma_trim_end(s: Seq<char>, strip: Set<char>, j: int)
    requires
        0 <= j <= s.len(),
        forall|k: int| j <= k < s.len() ==> strip.contains(#[trigger] s[k]),
        j > 0 ==> !strip.contains(s[j - 1]),
    ensures
        trim_end(s, strip) == s.subrange(0, j),
    decreases s.len() - j,
{
    if j == s.len() {
        assert(s.subrange(0, j) =~= s);
    } else {
        let rest = s.drop_last();
        lemma_trim_end(rest, strip, j);
        assert(rest.subrange(0, j) =~= s.subrange(0, j));
    }
}

/// The range between `start` and `end` is what trimming leaves, where
/// everything before `start` and from `end` on is stripped and the range
/// neither starts nor ends with a stripped character.
pub proof fn lemma_trim_range(s: Seq<char>, strip: Set<char>, start: int, end: int)
    requires
        0 <= start <= end <= s.len(),
        forall|k: int| 0 <= k < start ==> strip.contains(#[trigger] s[k]),
        forall|k: int| end <= k < s.len() ==> strip.contains(#[trigger] s[k]),
        start < s.len() ==> !strip.contains(s[start]),
        end > start ==> !strip.contains(s[end - 1]),
    ensures
        trim_matches(s, strip) == s.subrange(start, end),
{
    let tail = s.subrange(start, s.len() as int);
    lemma_trim_start(s, strip, start);
    assert forall|k: int| end - start <= k < tail.len() implies strip.contains(
        #[trigger] tail[k],
    ) by {
        assert(tail[k] == s[k + start]);
    }
    if end > start {
        assert(tail[end - start - 1] == s[end - 1]);
    }
    lemma_trim_end(tail, strip, end - start);
    assert(tail.subrange(0, end - start) =~= s.subrange(start, end));
}

/// The characters of a string, one by one.
pub fn chars_of(s: &str) -> (chars: Vec<char>)
    ensures
        chars@ == s@,
{
    broadcast use vstd::string::group_string_axioms;

    let mut chars: Vec<char> = Vec::new();
    let mut it = s.chars();
    loop
        invariant
            it.obeys_prophetic_iter_laws(),
            it.decrease() is Some,
            chars@ + it.remaining() == s@,
        ensures
            chars@ == s@,
        decreases it.decrease()->0,
    {
        match it.next() {
            Some(c) => {
                chars.push(c);
                assert(chars@ + it.remaining() =~= s@);
            },
            None => {
                assert(chars@ =~= s@);
                break ;
            },
        }
    }
    chars
}

/// The range of `text` that is left when whitespace is trimmed from
/// both ends.
pub fn trim_bounds(text: &Vec<char>) -> (range: (usize, usize))
    ensures
        range.0 <= range.1 <= text.len(),
        text@.subrange(range.0 as int, range.1 as int) == spec_trim(text@),
{
    let mut start: usize = 0;
    while start < text.len() && is_whitespace(text[start])
        invariant
            start <= text.len(),
            forall|k: int| 0 <= k < start ==> whitespace().contains(#[trigger] text@[k]),
        decreases text.len() - start,
    {
        start = start + 1;
    }
    let mut end: usize = text.len();
    while end > start && is_whitespace(text[end - 1])
        invariant
            start <= end <= text.len(),
            forall|k: int| end <= k < text.len() ==> whitespace().contains(#[trigger] text@[k]),
        decreases end,
    {
        end = end - 1;
    }
    proof {
        lemma_trim_range(text@, whitespace(), start as int, end as int);
    }
    (start, end)
}

/// Whether `count` characters of `left` from `at` on equal those of
/// `right` from `from` on.
pub fn ranges_equal(
    left: &Vec<char>,
    at: usize,
    right: &Vec<char>,
    from: usize,
    count: usize,
) -> (equal: bool)
    requires
        at + count <= left.len(),
        from + count <= right.len(),
    ensures
        equal == (left@.subrange(at as int, at + count) == right@.subrange(
            from as int,
            from + count,
        )),
{
    let mut k: usize = 0;
    while k < count
        invariant
            k <= count,
            at + count <= left.len(),
            from + count <= right.len(),
            left@.subrange(at as int, at + k) == right@.subrange(from as int, from + k),
        decreases count - k,
    {
        if left[at + k] != right[from + k] {
            proof {
                let a = left@.subrange(at as int, at + count);
                let b = right@.subrange(from as int, from + count);
                assert(a[k as int] != b[k as int]);
            }
            return false;
        }
        proof {
            let a0 = left@.subrange(at as int, at + k);
            let b0 = right@.subrange(from as int, from + k);
            let a1 = left@.subrange(at as int, at + k + 1);
            let b1 = right@.subrange(from as int, from + k + 1);
            assert(a1 =~= a0.push(left@[at + k]));
            assert(b1 =~= b0.push(right@[from + k]));
        }
        k = k + 1;
    }
    true
}

/// Whether `" - "` stands in `text` at `at`.
pub fn separator_at(text: &Vec<char>, at: usize) -> (found: bool)
    requires
        at + 3 <= text.len(),
    ensures
        found == (text@.subrange(at as int, at + 3) == separator()),
{
    let found: bool = text[at] == ' ' && text[at + 1] == '-' && text[at + 2] == ' ';
    proof {
        let part = text@.subrange(at as int, at + 3);
        assert(part[0] == text@[at as int]);
        assert(part[1] == text@[at + 1]);
        assert(part[2] == text@[at + 2]);
        if found {
            assert(part =~= separator());
        }
    }
    found
}

/// Whether `" - Topic"` stands in `text` at `at`.
pub fn topic_at(text: &Vec<char>, at: usize) -> (found: bool)
    requires
        at + 8 <= text.len(),
    ensures
        found == (text@.subrange(at as int, at + 8) == topic_suffix()),
{
    let found: bool = text[at] == ' ' && text[at + 1] == '-' && text[at + 2] == ' ' && text[at
        + 3] == 'T' && text[at + 4] == 'o' && text[at + 5] == 'p' && text[at + 6] == 'i'
        && text[at + 7] == 'c';
    proof {
        let part = text@.subrange(at as int, at + 8);
        assert(part[0] == text@[at as int]);
        assert(part[1] == text@[at + 1]);
        assert(part[2] == text@[at + 2]);
        assert(part[3] == text@[at + 3]);
        assert(part[4] == text@[at + 4]);
        assert(part[5] == text@[at + 5]);
        assert(part[6] == text@[at + 6]);
        assert(part[7] == text@[at + 7]);
        if found {
            assert(part =~= topic_suffix());
        }
    }
    found
}

/// A sequence equals a concatenation exactly when its two parts equal
/// the two operands.
proof fn lemma_split_concat(x: Seq<char>, a: Seq<char>, b: Seq<char>)
    requires
        x.len() == a.len() + b.len(),
    ensures
        (x == a + b) <==> (x.subrange(0, a.len() as int) == a && x.subrange(
            a.len() as int,
            x.len() as int,
        ) == b),
{
    if x == a + b {
        assert(x.subrange(0, a.len() as int) =~= a);
        assert(x.subrange(a.len() as int, x.len() as int) =~= b);
    }
    if x.subrange(0, a.len() as int) == a && x.subrange(a.len() as int, x.len() as int) == b {
        assert(x =~= x.subrange(0, a.len() as int) + x.subrange(a.len() as int, x.len() as int));
    }
}

/// The range of `artist` that is shown.
pub fn artist_range(artist: &Vec<char>) -> (range: (usize, usize))
    ensures
        range.0 <= range.1 <= artist.len(),
        artist@.subrange(range.0 as int, range.1 as int) == shown_artist(artist@),
{
    let (start, end) = trim_bounds(artist);
    proof {
        let trimmed = artist@.subrange(start as int, end as int);
        if end - start >= 8 {
            assert(trimmed.subrange(trimmed.len() - 8, trimmed.len() as int) =~= artist@.subrange(
                end - 8,
                end as int,
            ));
            assert(trimmed.subrange(0, trimmed.len() - 8) =~= artist@.subrange(
                start as int,
                end - 8,
            ));
        }
    }
    if end - start >= 8 && topic_at(artist, end - 8) {
        (start, end - 8)
    } else {
        (start, end)
    }
}

/// Where `title[t0..t1]` starts once a leading `artist[a0..a1]` followed
/// by `" - "` is skipped.
pub fn skip_artist_prefix(
    title: &Vec<char>,
    t0: usize,
    t1: usize,
    artist: &Vec<char>,
    a0: usize,
    a1: usize,
) -> (start: usize)
    requires
        t0 <= t1 <= title.len(),
        a0 <= a1 <= artist.len(),
    ensures
        t0 <= start <= t1,
        title@.subrange(start as int, t1 as int) == strip_prefix(
            title@.subrange(t0 as int, t1 as int),
            artist@.subrange(a0 as int, a1 as int) + separator(),
        ),
{
    let n: usize = a1 - a0;
    let ghost t = title@.subrange(t0 as int, t1 as int);
    let ghost a = artist@.subrange(a0 as int, a1 as int);
    let ghost prefix = a + separator();
    if t1 - t0 >= 3 && t1 - t0 - 3 >= n {
        let found: bool = ranges_equal(title, t0, artist, a0, n) && separator_at(title, t0 + n);
        proof {
            let x = t.subrange(0, prefix.len() as int);
            lemma_split_concat(x, a, separator());
            assert(x.subrange(0, a.len() as int) =~= title@.subrange(t0 as int, t0 + n));
            assert(x.subrange(a.len() as int, x.len() as int) =~= title@.subrange(
                t0 + n,
                t0 + n + 3,
            ));
            assert(t.subrange(prefix.len() as int, t.len() as int) =~= title@.subrange(
                t0 + n + 3,
                t1 as int,
            ));
        }
        if found {
            return t0 + n + 3;
        }
    }
    t0
}

/// Where `title[t0..t1]` ends once a trailing `" - "` followed by
/// `artist[a0..a1]` is dropped.
pub fn drop_artist_suffix(
    title: &Vec<char>,
    t0: usize,
    t1: usize,
    artist: &Vec<char>,
    a0: usize,
    a1: usize,
) -> (end: usize)
    requires
        t0 <= t1 <= title.len(),
        a0 <= a1 <= artist.len(),
    ensures
        t0 <= end <= t1,
        title@.subrange(t0 as int, end as int) == strip_suffix(
            title@.subrange(t0 as int, t1 as int),
            separator() + artist@.subrange(a0 as int, a1 as int),
        ),
{
    let n: usize = a1 - a0;
    let ghost t = title@.subrange(t0 as int, t1 as int);
    let ghost a = artist@.subrange(a0 as int, a1 as int);
    let ghost suffix = separator() + a;
    if t1 - t0 >= 3 && t1 - t0 - 3 >= n {
        let found: bool = separator_at(title, t1 - n - 3) && ranges_equal(
            title,
            t1 - n,
            artist,
            a0,
            n,
        );
        proof {
            let x = t.subrange(t.len() - suffix.len(), t.len() as int);
            lemma_split_concat(x, separator(), a);
            assert(x.subrange(0, 3) =~= title@.subrange(t1 - n - 3, t1 - n));
            assert(x.subrange(3, x.len() as int) =~= title@.subrange(t1 - n, t1 as int));
            assert(t.subrange(0, t.len() - suffix.len()) =~= title@.subrange(
                t0 as int,
                t1 - n - 3,
            ));
        }
        if found {
            return t1 - n - 3;
        }
    }
    t1
}

/// The ranges of `title` and of `artist` that are shown.
pub fn shown_ranges(title: &Vec<char>, artist: &Vec<char>) -> (ranges: (
    (usize, usize),
    (usize, usize),
))
    ensures
        ranges.0.0 <= ranges.0.1 <= title.len(),
        ranges.1.0 <= ranges.1.1 <= artist.len(),
        title@.subrange(ranges.0.0 as int, ranges.0.1 as int) == shown_title(title@, artist@),
        artist@.subrange(ranges.1.0 as int, ranges.1.1 as int) == shown_artist(artist@),
{
    let (a0, a1) = artist_range(artist);
    let (t0, t1) = trim_bounds(title);
    if a1 > a0 && t1 > t0 {
        let start: usize = skip_artist_prefix(title, t0, t1, artist, a0, a1);
        let end: usize = drop_artist_suffix(title, start, t1, artist, a0, a1);
        ((start, end), (a0, a1))
    } else {
        ((t0, t1), (a0, a1))
    }
}

/// Formats a snapshot for display. The result is empty when there is
/// nothing to show.
pub fn format_media_text(settings: &Settings, media: &MediaInfo) -> (text: String)
    ensures
        text@ == spec_format_media_text(*settings, media@),
        media.status == MediaStatus::Stopped ==> text@.len() == 0,
{
    if media.status == MediaStatus::Stopped {
        return String::new();
    }
    let title: Vec<char> = chars_of(media.title.as_str());
    let artist: Vec<char> = chars_of(media.artist.as_str());
    let ((t0, t1), (a0, a1)) = shown_ranges(&title, &artist);

    let mut buffer: String = String::new();
    proof {
        reveal_strlit("\u{266a}~\u{2009}\u{2009}\u{2009}");
        reveal_strlit("\u{23f8}~\u{2009}\u{2009}\u{2009}");
        reveal_strlit("\n");
        assert("\u{266a}~\u{2009}\u{2009}\u{2009}"@ =~= playing_cue());
        assert("\u{23f8}~\u{2009}\u{2009}\u{2009}"@ =~= paused_cue());
        assert("\n"@ =~= seq!['\n']);
    }
    if media.status == MediaStatus::Playing {
        buffer.append("\u{266a}~\u{2009}\u{2009}\u{2009}");
    } else if settings.show_playback_status {
        buffer.append("\u{23f8}~\u{2009}\u{2009}\u{2009}");
    }
    assert(buffer@ =~= status_cue(settings.show_playback_status, media.status));
    if t1 > t0 {
        buffer.append(media.title.as_str().substring_char(t0, t1));
    }
    assert(buffer@ =~= status_cue(settings.show_playback_status, media.status) + shown_title(
        media.title@,
        media.artist@,
    ));
    if settings.show_artist_name && a1 > a0 {
        if !buffer.as_str().is_empty() {
            buffer.append("\n");
        }
        buffer.append(media.artist.as_str().substring_char(a0, a1));
    }
    buffer
}

} // verus!
