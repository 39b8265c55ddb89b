//! Channels: recognising a channel's platform and name from its address, the
//! list of tracked channels, and where a download of one of its videos goes.
use crate::listing::opt_view;
use crate::text::{chars_of, contains_chars, contains_seq, find_chars, first_occurrence};
use vstd::prelude::*;
use vstd::string::StringSliceAdditionalSpecFns;

verus! {

/// The video platforms that channels are tracked on.
#[derive(Clone, Copy, Debug, PartialEq, Eq, Structural)]
pub enum Platform {
    YouTube,
    Twitch,
}

/// A tracked channel.
#[derive(Debug, PartialEq, Eq)]
pub struct Channel {
    pub name: String,
    pub platform: Platform,
    pub url: String,
}

/// How a listed video relates to local storage.
#[derive(Clone, Copy, Debug, PartialEq, Eq, Structural)]
pub enum VideoStatus {
    NotDownloaded,
    Downloading,
    Downloaded,
}

/// The platform that an address belongs to.
pub open spec fn platform_of(url: Seq<char>) -> Option<Platform> {
    if contains_seq(url, "youtube.com"@) || contains_seq(url, "youtu.be"@) {
        Some(Platform::YouTube)
    } else if contains_seq(url, "twitch.tv"@) {
        Some(Platform::Twitch)
    } else {
        None
    }
}

/// How many characters `s` starts with before its first slash.
pub open spec fn slash_pos(s: Seq<char>) -> nat
    decreases s.len(),
{
    if s.len() > 0 && s[0] != '/' {
        1 + slash_pos(s.drop_first())
    } else {
        0
    }
}

/// What follows the first occurrence of `p` in `s`, up to the next slash.
pub open spec fn segment_after(s: Seq<char>, p: Seq<char>) -> Seq<char> {
    let rest = s.skip(first_occurrence(s, p)->0 + p.len());
    rest.take(slash_pos(rest) as int)
}

/// The channel name that an address names: on YouTube what follows `/@`, `/c/`
/// or `/channel/`; on Twitch what follows `twitch.tv/`, unless that is empty or
/// `videos`.
pub open spec fn channel_name_of(url: Seq<char>) -> Option<Seq<char>> {
    if contains_seq(url, "youtube.com"@) && contains_seq(url, "/@"@) {
        Some(segment_after(url, "/@"@))
    } else if contains_seq(url, "youtube.com"@) && contains_seq(url, "/c/"@) {
        Some(segment_after(url, "/c/"@))
    } else if contains_seq(url, "youtube.com"@) && contains_seq(url, "/channel/"@) {
        Some(segment_after(url, "/channel/"@))
    } else if contains_seq(url, "twitch.tv/"@) && segment_after(url, "twitch.tv/"@).len() > 0
        && segment_after(url, "twitch.tv/"@) != "videos"@ {
        Some(segment_after(url, "twitch.tv/"@))
    } else {
        None
    }
}

proof fn lemma_slash_pos(s: Seq<char>, i: int)
    requires
        0 <= i <= s.len(),
        forall|j: int| 0 <= j < i ==> #[trigger] s[j] != '/',
        i == s.len() || s[i] == '/',
    ensures
        slash_pos(s) == i,
    decreases i,
{
    if i > 0 {
        assert forall|j: int| 0 <= j < i - 1 implies #[trigger] s.drop_first()[j] != '/' by {
            assert(s.drop_first()[j] == s[j + 1]);
        }
        if i < s.len() {
            assert(s.drop_first()[i - 1] == s[i]);
        }
        lemma_slash_pos(s.drop_first(), i - 1);
    }
}

impl Platform {
    /// The platform of the channel at `url`, if it is one of the tracked ones.
    pub fn from_url(url: &str) -> (r: Option<Platform>)
        ensures
            r == platform_of(url@),
    {
        let u = chars_of(url);
        if contains_chars(&u, &chars_of("youtube.com")) || contains_chars(&u, &chars_of("youtu.be")) {
            Some(Platform::YouTube)
        } else if contains_chars(&u, &chars_of("twitch.tv")) {
            Some(Platform::Twitch)
        } else {
            None
        }
    }

    /// The channel's name in `url`, if it names one.
    pub fn extract_channel_name(url: &str) -> (r: Option<String>)
        ensures
            opt_view(r) == channel_name_of(url@),
    {
        let u = chars_of(url);
        let youtube = contains_chars(&u, &chars_of("youtube.com"));
        if youtube {
            let at = chars_of("/@");
            if contains_chars(&u, &at) {
                return Some(segment_text(url, &u, &at));
            }
            let c = chars_of("/c/");
            if contains_chars(&u, &c) {
                return Some(segment_text(url, &u, &c));
            }
            let channel = chars_of("/channel/");
            if contains_chars(&u, &channel) {
                return Some(segment_text(url, &u, &channel));
            }
        }
        let twitch = chars_of("twitch.tv/");
        if contains_chars(&u, &twitch) {
            let name = segment_text(url, &u, &twitch);
            let videos = "videos".to_owned();
            if name.as_str().unicode_len() > 0 && name != videos {
                return Some(name);
            }
        }
        None
    }
}

/// The text after the first `p` in `url`, whose characters are `u`, up to the next slash.
fn segment_text(url: &str, u: &Vec<char>, p: &Vec<char>) -> (r: String)
    requires
        u@ == url@,
        contains_seq(u@, p@),
    ensures
        r@ == segment_after(url@, p@),
{
    let i = match find_chars(u, p) {
        Some(i) => i,
        None => {
            return String::new();
        },
    };
    assert(u@.len() == u.len());
    let start = i + p.len();
    let ghost rest = u@.skip(start as int);
    let mut end: usize = start;
    while end < u.len() && u[end] != '/'
        invariant
            start <= end <= u@.len(),
            rest == u@.skip(start as int),
            forall|j: int| 0 <= j < end - start ==> #[trigger] rest[j] != '/',
        decreases u@.len() - end,
    {
        end = end + 1;
    }
    proof {
        if end < u@.len() {
            assert(rest[end - start] == u@[end as int]);
        }
        lemma_slash_pos(rest, end - start);
        assert(rest.take(end - start) =~= url@.subrange(start as int, end as int));
    }
    url.substring_char(start, end).to_owned()
}

/// The address of the news feed of a YouTube channel, given its identifier
/// (24 bytes starting with `UC`) or its user name.
pub fn youtube_rss_url(channel: &str) -> (r: String)
    ensures
        ({
            let id_form = channel@.len() >= 2 && channel@[0] == 'U' && channel@[1] == 'C'
                && channel.spec_bytes().len() == 24;
            r@ == if id_form {
                "https://www.youtube.com/feeds/videos.xml?channel_id="@ + channel@
            } else {
                "https://www.youtube.com/feeds/videos.xml?user="@ + channel@
            }
        }),
{
    let n = channel.unicode_len();
    let id_form = n >= 2 && channel.get_char(0) == 'U' && channel.get_char(1) == 'C' && channel.as_bytes().len() == 24;
    let mut r = if id_form {
        "https://www.youtube.com/feeds/videos.xml?channel_id=".to_owned()
    } else {
        "https://www.youtube.com/feeds/videos.xml?user=".to_owned()
    };
    r.append(channel);
    r
}

/// Adds the channel at `url` to `channels` when its platform and name can be
/// told from the address and no tracked channel has the same address; the
/// answer says whether it was added.
pub fn add_channel_from_url(channels: &mut Vec<Channel>, url: String) -> (r: bool)
    ensures
        r == (platform_of(url@) is Some && channel_name_of(url@) is Some && forall|i: int|
            0 <= i < old(channels)@.len() ==> #[trigger] old(channels)@[i].url@ != url@),
        r ==> final(channels)@.len() == old(channels)@.len() + 1 && final(channels)@.drop_last() == old(
            channels,
        )@ && final(channels)@.last().url@ == url@ && final(channels)@.last().name@ == channel_name_of(url@)->0
            && Some(final(channels)@.last().platform) == platform_of(url@),
        !r ==> final(channels)@ == old(channels)@,
{
    let platform = match Platform::from_url(url.as_str()) {
        Some(p) => p,
        None => return false,
    };
    let name = match Platform::extract_channel_name(url.as_str()) {
        Some(n) => n,
        None => return false,
    };
    let mut i: usize = 0;
    while i < channels.len()
        invariant
            0 <= i <= channels@.len(),
            channels@ == old(channels)@,
            forall|j: int| 0 <= j < i ==> #[trigger] channels@[j].url@ != url@,
        decreases channels@.len() - i,
    {
        if channels[i].url == url {
            return false;
        }
        i = i + 1;
    }
    let ghost before = channels@;
    channels.push(Channel { name, platform, url });
    assert(channels@.drop_last() =~= before);
    true
}

/// The selected position after the channel at `index` is removed: none when it
/// was the selected one, one less when it came before the selected one.
pub open spec fn selection_after_removal(selected: Option<usize>, index: usize) -> Option<usize> {
    match selected {
        Some(s) => if s == index {
            None
        } else if s > index {
            Some((s - 1) as usize)
        } else {
            Some(s)
        },
        None => None,
    }
}

/// Removes the channel at `index`, when there is one, and gives the selected
/// position afterwards.
pub fn delete_channel(channels: &mut Vec<Channel>, selected: Option<usize>, index: usize) -> (r: Option<usize>)
    ensures
        index < old(channels)@.len() ==> final(channels)@ == old(channels)@.remove(index as int) && r
            == selection_after_removal(selected, index),
        index >= old(channels)@.len() ==> final(channels)@ == old(channels)@ && r == selected,
{
    if index >= channels.len() {
        return selected;
    }
    channels.remove(index);
    match selected {
        Some(s) => if s == index {
            None
        } else if s > index {
            Some(s - 1)
        } else {
            Some(s)
        },
        None => None,
    }
}

/// The status shown for a listed video: a local copy wins over a running download.
pub fn video_status(downloaded: bool, downloading: bool) -> (r: VideoStatus)
    ensures
        r == (if downloaded {
            VideoStatus::Downloaded
        } else if downloading {
            VideoStatus::Downloading
        } else {
            VideoStatus::NotDownloaded
        }),
{
    if downloaded {
        VideoStatus::Downloaded
    } else if downloading {
        VideoStatus::Downloading
    } else {
        VideoStatus::NotDownloaded
    }
}

/// The characters that `char::is_whitespace` accepts: Unicode's White_Space.
pub open spec fn is_white(c: char) -> bool {
    ('\t' <= c <= '\r') || c == ' ' || c == '\u{85}' || c == '\u{a0}' || c == '\u{1680}' || ('\u{2000}' <= c
        <= '\u{200a}') || c == '\u{2028}' || c == '\u{2029}' || c == '\u{202f}' || c == '\u{205f}' || c
        == '\u{3000}'
}

fn white(c: char) -> (r: bool)
    ensures
        r == is_white(c),
{
    ('\t' <= c && c <= '\r') || c == ' ' || c == '\u{85}' || c == '\u{a0}' || c == '\u{1680}' || ('\u{2000}' <= c
        && c <= '\u{200a}') || c == '\u{2028}' || c == '\u{2029}' || c == '\u{202f}' || c == '\u{205f}' || c
        == '\u{3000}'
}

/// `s` without white space at either end: the first and last position that
/// is not white space bound it.
pub open spec fn is_trimmed_range(s: Seq<char>, lo: int, hi: int) -> bool {
    &&& 0 <= lo <= hi <= s.len()
    &&& forall|j: int| 0 <= j < lo ==> is_white(#[trigger] s[j])
    &&& forall|j: int| hi <= j < s.len() ==> is_white(#[trigger] s[j])
    &&& lo < hi ==> !is_white(s[lo]) && !is_white(s[hi - 1])
    &&& lo == hi ==> forall|j: int| 0 <= j < s.len() ==> is_white(#[trigger] s[j])
}

/// `s` without the white space at either end.
pub open spec fn trimmed(s: Seq<char>) -> Seq<char> {
    let (lo, hi) = choose|lo: int, hi: int| #[trigger] is_trimmed_range(s, lo, hi);
    s.subrange(lo, hi)
}

proof fn lemma_trimmed_range_unique(s: Seq<char>, lo: int, hi: int, lo2: int, hi2: int)
    requires
        is_trimmed_range(s, lo, hi),
        is_trimmed_range(s, lo2, hi2),
    ensures
        s.subrange(lo, hi) == s.subrange(lo2, hi2),
{
    if lo < hi && lo2 < hi2 {
        assert(lo == lo2);
        assert(hi == hi2);
    } else if lo < hi {
        assert(is_white(s[lo]));
    } else if lo2 < hi2 {
        assert(is_white(s[lo2]));
    } else {
        assert(s.subrange(lo, hi) =~= s.subrange(lo2, hi2));
    }
}

fn trim_text(s: &str) -> (r: String)
    ensures
        r@ == trimmed(s@),
{
    let c = chars_of(s);
    let n = c.len();
    let mut lo: usize = 0;
    while lo < n && white(c[lo])
        invariant
            0 <= lo <= n == c@.len(),
            forall|j: int| 0 <= j < lo ==> is_white(#[trigger] c@[j]),
        decreases n - lo,
    {
        lo = lo + 1;
    }
    let mut hi: usize = n;
    while hi > lo && white(c[hi - 1])
        invariant
            0 <= lo <= hi <= n == c@.len(),
            forall|j: int| hi <= j < n ==> is_white(#[trigger] c@[j]),
        decreases hi,
    {
        hi = hi - 1;
    }
    proof {
        assert(is_trimmed_range(s@, lo as int, hi as int));
        let (lo2, hi2) = choose|lo2: int, hi2: int| #[trigger] is_trimmed_range(s@, lo2, hi2);
        lemma_trimmed_range_unique(s@, lo as int, hi as int, lo2, hi2);
    }
    s.substring_char(lo, hi).to_owned()
}

/// Where a download of a video of `channel_name` named `filename` goes:
/// `<storage>/<channel>/<filename>.mp4`, with the file name trimmed of white
/// space; none when the trimmed file name is empty.
pub fn download_destination(storage: &str, channel_name: &str, filename: &str) -> (r: Option<String>)
    ensures
        trimmed(filename@).len() == 0 ==> r is None,
        trimmed(filename@).len() > 0 ==> (r matches Some(p) && p@ == storage@ + "/"@ + channel_name@ + "/"@
            + trimmed(filename@) + ".mp4"@),
{
    let name = trim_text(filename);
    if name.as_str().unicode_len() == 0 {
        return None;
    }
    let mut p = storage.to_owned();
    p.append("/");
    p.append(channel_name);
    p.append("/");
    p.append(name.as_str());
    p.append(".mp4");
    Some(p)
}

} // verus!
