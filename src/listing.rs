//! Video metadata, and the reading of a listing tool's output into it.
//!
//! The listing tool writes one JSON object per line. A line that is blank is
//! passed over; a line that is not a JSON object with string members `id`,
//! `title` and `url` is skipped, and the lines around it are still read.
use crate::decimal::{fit_u64, decimal_micros, is_digit, is_space, parse_decimal_micros};
use crate::text::{chars_of, contains_chars};
use vstd::prelude::*;
use vstd::slice::slice_subrange;

verus! {

/// The metadata of one remote video.
#[derive(Debug, PartialEq, Eq)]
pub struct VideoMetadata {
    pub id: String,
    pub title: String,
    pub url: String,
    /// Playback length in microseconds; absent for live or ongoing streams.
    pub duration_us: Option<u64>,
    pub upload_date: Option<String>,
    pub uploader: Option<String>,
}

/// The content of a `VideoMetadata`.
pub struct VideoRecord {
    pub id: Seq<char>,
    pub title: Seq<char>,
    pub url: Seq<char>,
    pub duration_us: Option<u64>,
    pub upload_date: Option<Seq<char>>,
    pub uploader: Option<Seq<char>>,
}

pub open spec fn opt_view(o: Option<String>) -> Option<Seq<char>> {
    match o {
        Some(s) => Some(s@),
        None => None,
    }
}

impl View for VideoMetadata {
    type V = VideoRecord;

    open spec fn view(&self) -> VideoRecord {
        VideoRecord {
            id: self.id@,
            title: self.title@,
            url: self.url@,
            duration_us: self.duration_us,
            upload_date: opt_view(self.upload_date),
            uploader: opt_view(self.uploader),
        }
    }
}

pub(crate) fn clone_opt(o: &Option<String>) -> (r: Option<String>)
    ensures
        r == *o,
{
    match o {
        Some(s) => Some(s.clone()),
        None => None,
    }
}

impl Clone for VideoMetadata {
    fn clone(&self) -> (r: Self)
        ensures
            r == *self,
    {
        VideoMetadata {
            id: self.id.clone(),
            title: self.title.clone(),
            url: self.url.clone(),
            duration_us: self.duration_us,
            upload_date: clone_opt(&self.upload_date),
            uploader: clone_opt(&self.uploader),
        }
    }
}

/// The views of a sequence of videos.
pub open spec fn records(v: Seq<VideoMetadata>) -> Seq<VideoRecord> {
    v.map_values(|m: VideoMetadata| m@)
}

/// One member of a JSON object: its key, its value when that is a string, and
/// the value written out as JSON text.
#[derive(Debug, PartialEq, Eq)]
pub struct JsonMember {
    pub key: String,
    pub text: Option<String>,
    pub raw: Vec<u8>,
}

/// The content of a `JsonMember`.
pub struct MemberView {
    pub key: Seq<char>,
    pub text: Option<Seq<char>>,
    pub raw: Seq<u8>,
}

pub open spec fn member_views(ms: Seq<JsonMember>) -> Seq<MemberView> {
    ms.map_values(|m: JsonMember| MemberView { key: m.key@, text: opt_view(m.text), raw: m.raw@ })
}

/// The members of the JSON object that `line` holds, if it holds one.
pub uninterp spec fn json_members_of(line: Seq<u8>) -> Option<Seq<MemberView>>;

/// Relies on `serde_json::from_slice` to parse a JSON object, on
/// `serde_json::Value::as_str` for the members whose value is a string, and on the
/// `Display` of `serde_json::Value` to write each value back as JSON text.
#[verifier::external_body]
fn json_members(line: &[u8]) -> (r: Option<Vec<JsonMember>>)
    ensures
        match r {
            Some(v) => json_members_of(line@) == Some(member_views(v@)),
            None => json_members_of(line@) is None,
        },
{
    match serde_json::from_slice::<serde_json::Map<String, serde_json::Value>>(line) {
        Ok(m) => Some(
            m.into_iter().map(
                |(k, v)| JsonMember { text: v.as_str().map(String::from), raw: v.to_string().into_bytes(), key: k },
            ).collect(),
        ),
        Err(_) => None,
    }
}

/// The first member with the given key.
pub open spec fn member(ms: Seq<MemberView>, key: Seq<char>) -> Option<MemberView>
    decreases ms.len(),
{
    if ms.len() == 0 {
        None
    } else if ms[0].key == key {
        Some(ms[0])
    } else {
        member(ms.drop_first(), key)
    }
}

/// The string value of the member with the given key.
pub open spec fn text_member(ms: Seq<MemberView>, key: Seq<char>) -> Option<Seq<char>> {
    match member(ms, key) {
        Some(m) => m.text,
        None => None,
    }
}

/// The duration in microseconds that the `duration` member holds as a decimal number.
pub open spec fn duration_member(ms: Seq<MemberView>) -> Option<u64> {
    match member(ms, "duration"@) {
        Some(m) => fit_u64(decimal_micros(m.raw)),
        None => None,
    }
}

/// The JSON text `null`.
pub open spec fn null_text() -> Seq<u8> {
    seq![110u8, 117u8, 108u8, 108u8]
}

/// JSON text that is a number: it starts with a minus sign or a digit.
pub open spec fn is_number_text(raw: Seq<u8>) -> bool {
    raw.len() > 0 && (raw[0] == 45 || is_digit(raw[0]))
}

/// The member with the given key is absent, `null`, or a string.
pub open spec fn text_member_typed(ms: Seq<MemberView>, key: Seq<char>) -> bool {
    match member(ms, key) {
        Some(m) => m.text is Some || m.raw == null_text(),
        None => true,
    }
}

/// The `duration` member is absent, `null`, or a number.
pub open spec fn duration_member_typed(ms: Seq<MemberView>) -> bool {
    match member(ms, "duration"@) {
        Some(m) => m.raw == null_text() || is_number_text(m.raw),
        None => true,
    }
}

/// The video that a JSON object's members describe, if they describe one: the
/// members `id`, `title` and `url` are strings, and `duration`, `upload_date`
/// and `uploader` are each absent, `null`, or of their type.
pub open spec fn record_of(ms: Seq<MemberView>) -> Option<VideoRecord> {
    match (text_member(ms, "id"@), text_member(ms, "title"@), text_member(ms, "url"@)) {
        (Some(id), Some(title), Some(url)) => if !duration_member_typed(ms) || !text_member_typed(
            ms,
            "upload_date"@,
        ) || !text_member_typed(ms, "uploader"@) {
            None
        } else {
            Some(
            VideoRecord {
                id,
                title,
                url,
                duration_us: duration_member(ms),
                upload_date: text_member(ms, "upload_date"@),
                uploader: text_member(ms, "uploader"@),
            },
        )
        },
        _ => None,
    }
}

/// The video that one line of listing output describes.
pub open spec fn video_of_line(line: Seq<u8>) -> Option<VideoRecord> {
    match json_members_of(line) {
        Some(ms) => record_of(ms),
        None => None,
    }
}

/// The lines finished so far and the line under way, after reading `s`.
pub open spec fn split_state(s: Seq<u8>) -> (Seq<Seq<u8>>, Seq<u8>)
    decreases s.len(),
{
    if s.len() == 0 {
        (Seq::empty(), Seq::empty())
    } else {
        let (done, cur) = split_state(s.drop_last());
        if s.last() == 10 {
            (done.push(cur), Seq::empty())
        } else {
            (done, cur.push(s.last()))
        }
    }
}

/// The lines of `s`, split at line feeds; a final line feed ends the last line.
pub open spec fn lines_of(s: Seq<u8>) -> Seq<Seq<u8>> {
    let (done, cur) = split_state(s);
    if cur.len() == 0 {
        done
    } else {
        done.push(cur)
    }
}

/// A line that holds only white space.
pub open spec fn is_blank(line: Seq<u8>) -> bool {
    forall|i: int| 0 <= i < line.len() ==> is_space(#[trigger] line[i])
}

/// The videos that a sequence of lines describes, in order.
pub open spec fn records_of_lines(lines: Seq<Seq<u8>>) -> Seq<VideoRecord>
    decreases lines.len(),
{
    if lines.len() == 0 {
        Seq::empty()
    } else {
        let before = records_of_lines(lines.drop_last());
        if is_blank(lines.last()) {
            before
        } else {
            match video_of_line(lines.last()) {
                Some(r) => before.push(r),
                None => before,
            }
        }
    }
}

/// The videos that a listing tool's output describes, in order.
pub open spec fn listing_of(out: Seq<u8>) -> Seq<VideoRecord> {
    records_of_lines(lines_of(out))
}

fn find_member(ms: &Vec<JsonMember>, key: &String) -> (r: Option<usize>)
    ensures
        match r {
            Some(i) => i < ms@.len() && member(member_views(ms@), key@) == Some(member_views(ms@)[i as int]),
            None => member(member_views(ms@), key@) is None,
        },
{
    let ghost all = member_views(ms@);
    assert(all.skip(0) =~= all);
    let mut i: usize = 0;
    while i < ms.len()
        invariant
            0 <= i <= ms@.len(),
            all == member_views(ms@),
            member(all, key@) == member(all.skip(i as int), key@),
        decreases ms@.len() - i,
    {
        proof {
            assert(all.skip(i as int)[0] == all[i as int]);
            assert(all.skip(i as int).drop_first() =~= all.skip(i + 1));
        }
        if ms[i].key == *key {
            return Some(i);
        }
        i = i + 1;
    }
    None
}

fn text_of(ms: &Vec<JsonMember>, key: &str) -> (r: Option<String>)
    ensures
        opt_view(r) == text_member(member_views(ms@), key@),
{
    let k = key.to_owned();
    match find_member(ms, &k) {
        Some(i) => clone_opt(&ms[i].text),
        None => None,
    }
}

fn is_null_raw(raw: &Vec<u8>) -> (r: bool)
    ensures
        r == (raw@ == null_text()),
{
    let r = raw.len() == 4 && raw[0] == 110 && raw[1] == 117 && raw[2] == 108 && raw[3] == 108;
    proof {
        if r {
            assert(raw@ =~= null_text());
        }
        if raw@ == null_text() {
            assert(raw@[0] == 110 && raw@[1] == 117 && raw@[2] == 108 && raw@[3] == 108);
        }
    }
    r
}

fn text_typed(ms: &Vec<JsonMember>, key: &str) -> (r: bool)
    ensures
        r == text_member_typed(member_views(ms@), key@),
{
    let k = key.to_owned();
    match find_member(ms, &k) {
        Some(i) => match &ms[i].text {
            Some(_) => true,
            None => is_null_raw(&ms[i].raw),
        },
        None => true,
    }
}

/// The video that a JSON object's members describe: the string members `id`,
/// `title` and `url` are required; `duration` must be absent, `null` or a
/// number, and is read when it is a decimal number of seconds; `upload_date`
/// and `uploader` must be absent, `null` or strings.
pub fn record_from_members(ms: &Vec<JsonMember>) -> (r: Option<VideoMetadata>)
    ensures
        match r {
            Some(v) => record_of(member_views(ms@)) == Some(v@),
            None => record_of(member_views(ms@)) is None,
        },
{
    let id = match text_of(ms, "id") {
        Some(s) => s,
        None => return None,
    };
    let title = match text_of(ms, "title") {
        Some(s) => s,
        None => return None,
    };
    let url = match text_of(ms, "url") {
        Some(s) => s,
        None => return None,
    };
    let dk = "duration".to_owned();
    let duration_us = match find_member(ms, &dk) {
        Some(i) => {
            let raw = &ms[i].raw;
            let number = raw.len() > 0 && (raw[0] == 45 || (raw[0] >= 48 && raw[0] <= 57));
            if !number && !is_null_raw(raw) {
                return None;
            }
            parse_decimal_micros(raw.as_slice())
        },
        None => None,
    };
    if !text_typed(ms, "upload_date") || !text_typed(ms, "uploader") {
        return None;
    }
    let upload_date = text_of(ms, "upload_date");
    let uploader = text_of(ms, "uploader");
    Some(VideoMetadata { id, title, url, duration_us, upload_date, uploader })
}

/// The video that one line of listing output describes, if it describes one.
pub fn parse_video_line(line: &[u8]) -> (r: Option<VideoMetadata>)
    ensures
        match r {
            Some(v) => video_of_line(line@) == Some(v@),
            None => video_of_line(line@) is None,
        },
{
    match json_members(line) {
        Some(ms) => record_from_members(&ms),
        None => None,
    }
}

fn blank(line: &[u8]) -> (r: bool)
    ensures
        r == is_blank(line@),
{
    let mut i: usize = 0;
    while i < line.len()
        invariant
            0 <= i <= line@.len(),
            forall|j: int| 0 <= j < i ==> is_space(#[trigger] line@[j]),
        decreases line@.len() - i,
    {
        let b = line[i];
        if !(b == 32 || (b >= 9 && b <= 13)) {
            return false;
        }
        i = i + 1;
    }
    true
}

/// Adds the video of `line`, if it describes one, to `out`.
fn take_line(out: &mut Vec<VideoMetadata>, line: &[u8], ghost_lines: Ghost<Seq<Seq<u8>>>)
    requires
        records(old(out)@) == records_of_lines(ghost_lines@),
    ensures
        records(final(out)@) == records_of_lines(ghost_lines@.push(line@)),
{
    let ghost lines = ghost_lines@;
    assert(lines.push(line@).drop_last() =~= lines);
    if !blank(line) {
        match parse_video_line(line) {
            Some(v) => {
                let ghost before = out@;
                out.push(v);
                assert(records(out@) =~= records(before).push(v@));
            },
            None => {},
        }
    }
}

/// The videos that a listing tool's output describes, one JSON object per line,
/// in order; blank lines and lines that describe no video are passed over.
pub fn parse_listing(output: &[u8]) -> (r: Vec<VideoMetadata>)
    ensures
        records(r@) == listing_of(output@),
{
    let mut out: Vec<VideoMetadata> = Vec::new();
    let ghost mut done: Seq<Seq<u8>> = Seq::empty();
    let n = output.len();
    let mut start: usize = 0;
    let mut i: usize = 0;
    assert(records(out@) =~= Seq::<VideoRecord>::empty());
    while i < n
        invariant
            n == output@.len(),
            0 <= start <= i <= n,
            split_state(output@.take(i as int)) == (done, output@.subrange(start as int, i as int)),
            records(out@) == records_of_lines(done),
        decreases n - i,
    {
        let ghost t = output@.take(i + 1);
        assert(t.drop_last() =~= output@.take(i as int));
        assert(t.last() == output@[i as int]);
        if output[i] == 10 {
            let line = slice_subrange(output, start, i);
            take_line(&mut out, line, Ghost(done));
            proof {
                done = done.push(output@.subrange(start as int, i as int));
            }
            start = i + 1;
            assert(output@.subrange(start as int, i + 1) =~= Seq::<u8>::empty());
        } else {
            assert(output@.subrange(start as int, i + 1) =~= output@.subrange(start as int, i as int).push(output@[i as int]));
        }
        i = i + 1;
    }
    assert(output@.take(n as int) =~= output@);
    if start < n {
        let line = slice_subrange(output, start, n);
        take_line(&mut out, line, Ghost(done));
    }
    out
}

/// A listing of three lines, none of them blank, of which one describes no
/// video and the other two describe `first` and `second` in that order, holds
/// exactly `first` and `second`: the line that describes no video is skipped
/// and the others are kept.
pub proof fn lemma_lenient_listing(out: Seq<u8>, bad: int, first: VideoRecord, second: VideoRecord)
    requires
        lines_of(out).len() == 3,
        0 <= bad < 3,
        forall|i: int| 0 <= i < 3 ==> !is_blank(#[trigger] lines_of(out)[i]),
        video_of_line(lines_of(out)[bad]) is None,
        video_of_line(lines_of(out)[if bad == 0 { 1int } else { 0int }]) == Some(first),
        video_of_line(lines_of(out)[if bad == 2 { 1int } else { 2int }]) == Some(second),
    ensures
        listing_of(out) == seq![first, second],
{
    let l = lines_of(out);
    let l2 = l.drop_last();
    let l1 = l2.drop_last();
    let l0 = l1.drop_last();
    assert(l0.len() == 0);
    assert(l1.last() == l[0]);
    assert(l2.last() == l[1]);
    assert(!is_blank(l[0]) && !is_blank(l[1]) && !is_blank(l[2]));
    assert(records_of_lines(l0) == Seq::<VideoRecord>::empty());
    if bad == 0 {
        assert(records_of_lines(l1) =~= Seq::<VideoRecord>::empty());
        assert(records_of_lines(l2) =~= seq![first]);
        assert(records_of_lines(l) =~= seq![first, second]);
    } else if bad == 1 {
        assert(records_of_lines(l1) =~= seq![first]);
        assert(records_of_lines(l2) =~= seq![first]);
        assert(records_of_lines(l) =~= seq![first, second]);
    } else {
        assert(records_of_lines(l1) =~= seq![first]);
        assert(records_of_lines(l2) =~= seq![first, second]);
        assert(records_of_lines(l) =~= seq![first, second]);
    }
}

/// The numbers, counted from zero, of the lines that are neither blank nor
/// describe a video.
pub open spec fn skipped_of_lines(lines: Seq<Seq<u8>>) -> Seq<usize>
    decreases lines.len(),
{
    if lines.len() == 0 {
        Seq::empty()
    } else {
        let before = skipped_of_lines(lines.drop_last());
        if !is_blank(lines.last()) && video_of_line(lines.last()) is None {
            before.push((lines.len() - 1) as usize)
        } else {
            before
        }
    }
}

/// Adds the number `k` of `line` to `out` when the line is skipped.
fn note_line(out: &mut Vec<usize>, line: &[u8], k: usize, ghost_lines: Ghost<Seq<Seq<u8>>>)
    requires
        old(out)@ == skipped_of_lines(ghost_lines@),
        k == ghost_lines@.len(),
    ensures
        final(out)@ == skipped_of_lines(ghost_lines@.push(line@)),
{
    let ghost lines = ghost_lines@;
    assert(lines.push(line@).drop_last() =~= lines);
    if !blank(line) {
        match parse_video_line(line) {
            Some(_) => {},
            None => {
                out.push(k);
            },
        }
    }
}

/// The numbers, counted from zero, of the lines of a listing tool's output
/// that are skipped: not blank, yet describing no video.
pub fn skipped_lines(output: &[u8]) -> (r: Vec<usize>)
    ensures
        r@ == skipped_of_lines(lines_of(output@)),
{
    let mut out: Vec<usize> = Vec::new();
    let ghost mut done: Seq<Seq<u8>> = Seq::empty();
    let n = output.len();
    let mut start: usize = 0;
    let mut count: usize = 0;
    let mut i: usize = 0;
    assert(out@ =~= skipped_of_lines(done));
    while i < n
        invariant
            n == output@.len(),
            0 <= start <= i <= n,
            count == done.len(),
            count <= i,
            split_state(output@.take(i as int)) == (done, output@.subrange(start as int, i as int)),
            out@ == skipped_of_lines(done),
        decreases n - i,
    {
        let ghost t = output@.take(i + 1);
        assert(t.drop_last() =~= output@.take(i as int));
        assert(t.last() == output@[i as int]);
        if output[i] == 10 {
            let line = slice_subrange(output, start, i);
            note_line(&mut out, line, count, Ghost(done));
            proof {
                done = done.push(output@.subrange(start as int, i as int));
            }
            count = count + 1;
            start = i + 1;
            assert(output@.subrange(start as int, i + 1) =~= Seq::<u8>::empty());
        } else {
            assert(output@.subrange(start as int, i + 1) =~= output@.subrange(start as int, i as int).push(output@[i as int]));
        }
        i = i + 1;
    }
    assert(output@.take(n as int) =~= output@);
    if start < n {
        let line = slice_subrange(output, start, n);
        note_line(&mut out, line, count, Ghost(done));
    }
    out
}

/// The address whose listing is read for a channel: a Twitch channel address
/// that does not already point at its videos gets `/videos` added, after any
/// trailing slashes are dropped; any other address is kept.
pub open spec fn listing_url_of(url: Seq<char>) -> Seq<char> {
    if crate::text::contains_seq(url, "twitch.tv"@) && !crate::text::contains_seq(url, "/videos"@) {
        trim_end_slashes(url) + "/videos"@
    } else {
        url
    }
}

pub open spec fn trim_end_slashes(s: Seq<char>) -> Seq<char>
    decreases s.len(),
{
    if s.len() > 0 && s.last() == '/' {
        trim_end_slashes(s.drop_last())
    } else {
        s
    }
}

/// The address whose listing is read for the channel at `channel_url`.
pub fn listing_url(channel_url: &str) -> (r: String)
    ensures
        r@ == listing_url_of(channel_url@),
{
    let u = chars_of(channel_url);
    let twitch = chars_of("twitch.tv");
    let videos = chars_of("/videos");
    if contains_chars(&u, &twitch) && !contains_chars(&u, &videos) {
        let mut k: usize = u.len();
        assert(u@.take(k as int) =~= u@);
        while k > 0 && u[k - 1] == '/'
            invariant
                0 <= k <= u@.len(),
                trim_end_slashes(u@) == trim_end_slashes(u@.take(k as int)),
            decreases k,
        {
            assert(u@.take(k as int).drop_last() =~= u@.take(k - 1));
            k = k - 1;
        }
        assert(u@.take(k as int) =~= channel_url@.subrange(0, k as int));
        let mut r = channel_url.substring_char(0, k).to_owned();
        r.append("/videos");
        r
    } else {
        channel_url.to_owned()
    }
}

} // verus!
