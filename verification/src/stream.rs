//! HTTP radio streams: ICY metadata, the demultiplexing of audio and
//! interleaved metadata, playback progress, and a reader that replays a
//! prefix before the rest of a stream.
//!
//! An ICY stream announces an interval `metaint`: after every `metaint` audio
//! bytes comes one length byte `L` and then `16 * L` bytes of metadata text
//! such as `StreamTitle='Artist - Song';`. The demultiplexer takes the raw
//! bytes in chunks of any size and hands back the audio bytes only.

use vstd::prelude::*;
use vstd::utf8::{valid_utf8, decode_utf8};
use crate::pls::{parse_usize_range, parse_usize_spec};
use crate::text::{trim, find, find_from, chars_of, trim_range, find_in_range, string_of_range,
    occurs_at};

verus! {

// ---------------------------------------------------------------------------
// ICY metadata
// ---------------------------------------------------------------------------

pub struct MetaView {
    pub artist: Option<Seq<char>>,
    pub title: Option<Seq<char>>,
}

#[derive(Debug, Clone, PartialEq, Eq)]
pub struct IcyMetadata {
    pub artist: Option<String>,
    pub title: Option<String>,
}

pub open spec fn opt_view(o: Option<String>) -> Option<Seq<char>> {
    match o {
        Some(s) => Some(s@),
        None => None,
    }
}

impl View for IcyMetadata {
    type V = MetaView;

    open spec fn view(&self) -> MetaView {
        MetaView { artist: opt_view(self.artist), title: opt_view(self.title) }
    }
}

pub open spec fn opt_meta_view(o: Option<IcyMetadata>) -> Option<MetaView> {
    match o {
        Some(m) => Some(m@),
        None => None,
    }
}

pub open spec fn dash_separator() -> Seq<char> {
    seq![' ', '-', ' ']
}

/// A stream title `Artist - Title` split at its first ` - `; a title without
/// ` - ` has no artist.
pub open spec fn meta_from_title(s: Seq<char>) -> MetaView {
    match find(s, dash_separator()) {
        Some(k) => MetaView {
            artist: Some(s.subrange(0, k)),
            title: Some(s.subrange(k + 3, s.len() as int)),
        },
        None => MetaView { artist: None, title: Some(s) },
    }
}

fn clone_opt_string(o: &Option<String>) -> (r: Option<String>)
    ensures
        opt_view(r) == opt_view(*o),
{
    match o {
        Some(s) => Some(s.clone()),
        None => None,
    }
}

impl IcyMetadata {
    /// Splits `Artist - Title` into its parts.
    pub fn from_stream_title(stream_title: &str) -> (m: IcyMetadata)
        ensures
            m@ == meta_from_title(stream_title@),
    {
        let v = chars_of(stream_title);
        assert(v@.subrange(0, v@.len() as int) =~= v@);
        Self::from_title_range(&v, 0, v.len())
    }

    fn from_title_range(v: &Vec<char>, lo: usize, hi: usize) -> (m: IcyMetadata)
        requires
            lo <= hi <= v@.len(),
        ensures
            m@ == meta_from_title(v@.subrange(lo as int, hi as int)),
    {
        let ghost s = v@.subrange(lo as int, hi as int);
        let sep: [char; 3] = [' ', '-', ' '];
        assert(sep@ =~= dash_separator());
        match find_in_range(v, lo, hi, sep.as_slice()) {
            Some(k) => {
                proof {
                    crate::text::lemma_find_from_sound(s, dash_separator(), 0);
                }
                assert(v@.subrange(lo as int, k as int) =~= s.subrange(0, (k - lo) as int));
                assert(v@.subrange(k + 3, hi as int) =~= s.subrange((k - lo) + 3, s.len() as int));
                IcyMetadata {
                    artist: Some(string_of_range(v, lo, k)),
                    title: Some(string_of_range(v, k + 3, hi)),
                }
            },
            None => IcyMetadata { artist: None, title: Some(string_of_range(v, lo, hi)) },
        }
    }

    /// A copy with the same artist and title.
    pub fn duplicate(&self) -> (m: IcyMetadata)
        ensures
            m@ == self@,
    {
        IcyMetadata { artist: clone_opt_string(&self.artist), title: clone_opt_string(&self.title) }
    }
}

/// What `String::from_utf8_lossy` makes of `bytes`.
pub uninterp spec fn utf8_lossy(bytes: Seq<u8>) -> Seq<char>;

/// `String::from_utf8_lossy`: decodes `bytes`, replacing invalid sequences
/// with U+FFFD. The result is named `utf8_lossy`; for valid UTF-8 it is the
/// decoded text. How invalid sequences are replaced is left unsaid.
#[verifier::external_body]
fn decode_utf8_lossy(bytes: &[u8]) -> (s: String)
    ensures
        s@ == utf8_lossy(bytes@),
        valid_utf8(bytes@) ==> s@ == decode_utf8(bytes@),
{
    String::from_utf8_lossy(bytes).into_owned()
}

/// End of `s` once every trailing `'\0'` at or before `j` is dropped.
pub open spec fn nul_trimmed_end(s: Seq<char>, j: int) -> int
    decreases j,
{
    if j <= 0 {
        0
    } else if s[j - 1] != '\0' {
        j
    } else {
        nul_trimmed_end(s, j - 1)
    }
}

pub open spec fn stream_title_key() -> Seq<char> {
    seq!['S', 't', 'r', 'e', 'a', 'm', 'T', 'i', 't', 'l', 'e', '=', '\'']
}

/// Where the quoted title ends in `tail`: at the first `';`, or else at the
/// first `'`.
pub open spec fn title_end(tail: Seq<char>) -> Option<int> {
    match find(tail, seq!['\'', ';']) {
        Some(e) => Some(e),
        None => find(tail, seq!['\'']),
    }
}

/// The metadata a block of ICY metadata gives: that of its text, decoded
/// leniently.
pub open spec fn parse_icy_metadata_spec(block: Seq<u8>) -> Option<MetaView> {
    parse_icy_text_spec(utf8_lossy(block))
}

/// The metadata an ICY metadata text gives (trailing NULs dropped): the
/// trimmed text of `StreamTitle='...'`, split into artist and title; nothing
/// when there is no such entry or its text is empty.
pub open spec fn parse_icy_text_spec(text: Seq<char>) -> Option<MetaView> {
    let cleaned = text.subrange(0, nul_trimmed_end(text, text.len() as int));
    match find(cleaned, stream_title_key()) {
        None => None,
        Some(k) => {
            let tail = cleaned.subrange(k + 13, cleaned.len() as int);
            match title_end(tail) {
                None => None,
                Some(e) => {
                    let st = trim(tail.subrange(0, e));
                    if st.len() == 0 {
                        None
                    } else {
                        Some(meta_from_title(st))
                    }
                },
            }
        },
    }
}

proof fn lemma_nul_trimmed_end_bounds(s: Seq<char>, j: int)
    requires
        0 <= j <= s.len(),
    ensures
        0 <= nul_trimmed_end(s, j) <= j,
    decreases j,
{
    if j > 0 && s[j - 1] == '\0' {
        lemma_nul_trimmed_end_bounds(s, j - 1);
    }
}

/// Parses one block of ICY metadata: decodes it, then reads its text.
pub fn parse_icy_metadata(block: &[u8]) -> (r: Option<IcyMetadata>)
    ensures
        opt_meta_view(r) == parse_icy_metadata_spec(block@),
{
    let text = decode_utf8_lossy(block);
    parse_icy_metadata_text(text.as_str())
}

/// Reads the metadata of an ICY metadata text.
pub fn parse_icy_metadata_text(text: &str) -> (r: Option<IcyMetadata>)
    ensures
        opt_meta_view(r) == parse_icy_text_spec(text@),
{
    let v = chars_of(text);
    let ghost t = v@;
    let mut e: usize = v.len();
    while e > 0 && v[e - 1] == '\0'
        invariant
            e <= v@.len(),
            t == v@,
            nul_trimmed_end(t, e as int) == nul_trimmed_end(t, t.len() as int),
        decreases e,
    {
        e = e - 1;
    }
    let ghost cleaned = v@.subrange(0, e as int);
    let key: [char; 13] = ['S', 't', 'r', 'e', 'a', 'm', 'T', 'i', 't', 'l', 'e', '=', '\''];
    assert(key@ =~= stream_title_key());
    let k = match find_in_range(&v, 0, e, key.as_slice()) {
        Some(k) => k,
        None => {
            return None;
        },
    };
    proof {
        crate::text::lemma_find_from_sound(cleaned, stream_title_key(), 0);
    }
    let start: usize = k + 13;
    let ghost tail = v@.subrange(start as int, e as int);
    assert(tail =~= cleaned.subrange(k + 13, cleaned.len() as int));
    let quote_semi: [char; 2] = ['\'', ';'];
    let quote: [char; 1] = ['\''];
    assert(quote_semi@ =~= seq!['\'', ';']);
    assert(quote@ =~= seq!['\'']);
    let end = match find_in_range(&v, start, e, quote_semi.as_slice()) {
        Some(x) => x,
        None => match find_in_range(&v, start, e, quote.as_slice()) {
            Some(x) => x,
            None => {
                return None;
            },
        },
    };
    assert(v@.subrange(start as int, end as int) =~= tail.subrange(0, (end - start) as int));
    let (a, b) = trim_range(&v, start, end);
    if a == b {
        return None;
    }
    Some(IcyMetadata::from_title_range(&v, a, b))
}

// ---------------------------------------------------------------------------
// The demultiplexer
// ---------------------------------------------------------------------------

/// Where the demultiplexer stands in the byte stream.
pub enum IcyPhase {
    /// This many audio bytes come before the next metadata block.
    Audio(nat),
    /// The next byte gives the length of a metadata block.
    Length,
    /// This many bytes of the current metadata block are still to come.
    Block(nat),
}

pub struct IcyState {
    pub metaint: nat,
    pub phase: IcyPhase,
    /// The bytes of the current metadata block read so far.
    pub block: Seq<u8>,
    /// The metadata of the last complete block.
    pub meta: Option<MetaView>,
}

/// The phase at the start of the stream and after every metadata block.
pub open spec fn phase_after_block(metaint: nat) -> IcyPhase {
    if metaint > 0 {
        IcyPhase::Audio(metaint)
    } else {
        IcyPhase::Length
    }
}

pub open spec fn icy_start(metaint: nat) -> IcyState {
    IcyState { metaint, phase: phase_after_block(metaint), block: Seq::empty(), meta: None }
}

/// One raw byte: the new state, and the byte itself when it is audio.
pub open spec fn icy_step(st: IcyState, b: u8) -> (IcyState, Option<u8>) {
    match st.phase {
        IcyPhase::Audio(left) => {
            let phase = if left <= 1 {
                IcyPhase::Length
            } else {
                IcyPhase::Audio((left - 1) as nat)
            };
            (IcyState { phase, ..st }, Some(b))
        },
        IcyPhase::Length => {
            if b == 0 {
                (IcyState { phase: phase_after_block(st.metaint), ..st }, None)
            } else {
                (
                    IcyState {
                        phase: IcyPhase::Block((b as nat) * 16),
                        block: Seq::empty(),
                        ..st
                    },
                    None,
                )
            }
        },
        IcyPhase::Block(left) => {
            let block = st.block.push(b);
            if left <= 1 {
                (
                    IcyState {
                        phase: phase_after_block(st.metaint),
                        block: Seq::empty(),
                        meta: parse_icy_metadata_spec(block),
                        ..st
                    },
                    None,
                )
            } else {
                (IcyState { phase: IcyPhase::Block((left - 1) as nat), block, ..st }, None)
            }
        },
    }
}

/// A run of raw bytes: the final state and the audio bytes, in order.
pub open spec fn icy_run(st: IcyState, bytes: Seq<u8>) -> (IcyState, Seq<u8>)
    decreases bytes.len(),
{
    if bytes.len() == 0 {
        (st, Seq::empty())
    } else {
        let (s1, out) = icy_run(st, bytes.drop_last());
        let (s2, b) = icy_step(s1, bytes.last());
        match b {
            Some(x) => (s2, out.push(x)),
            None => (s2, out),
        }
    }
}

pub enum PhaseTag {
    Audio,
    Length,
    Block,
}

pub struct IcyStream {
    metaint: usize,
    tag: PhaseTag,
    /// Audio bytes left in `Audio`, block bytes left in `Block`.
    left: usize,
    block: Vec<u8>,
    metadata: Option<IcyMetadata>,
    progress: Option<u64>,
}

impl IcyStream {
    pub closed spec fn valid(&self) -> bool {
        &&& (self.tag is Audio ==> self.left > 0)
        &&& (self.tag is Block ==> self.left > 0)
        &&& self.block@.len() <= 255 * 16
        &&& (self.tag is Block ==> self.block@.len() + self.left <= 255 * 16)
    }

    pub closed spec fn state(&self) -> IcyState {
        IcyState {
            metaint: self.metaint as nat,
            phase: match self.tag {
                PhaseTag::Audio => IcyPhase::Audio(self.left as nat),
                PhaseTag::Length => IcyPhase::Length,
                PhaseTag::Block => IcyPhase::Block(self.left as nat),
            },
            block: self.block@,
            meta: opt_meta_view(self.metadata),
        }
    }

    /// The time of the last audio byte, when progress is tracked.
    pub closed spec fn progress_spec(&self) -> Option<u64> {
        self.progress
    }

    /// A demultiplexer for a stream with metadata every `metaint` audio
    /// bytes; `progress` is the time to start from when playback progress is
    /// to be tracked.
    pub fn new(metaint: usize, progress: Option<u64>) -> (s: IcyStream)
        ensures
            s.valid(),
            s.state() == icy_start(metaint as nat),
            s.progress_spec() == progress,
    {
        let s = IcyStream {
            metaint,
            tag: if metaint > 0 {
                PhaseTag::Audio
            } else {
                PhaseTag::Length
            },
            left: metaint,
            block: Vec::new(),
            metadata: None,
            progress,
        };
        assert(s.state().block =~= Seq::<u8>::empty());
        s
    }

    fn enter_after_block(&mut self)
        requires
            old(self).block@.len() <= 255 * 16,
        ensures
            final(self).valid(),
            final(self).state() == (IcyState {
                phase: phase_after_block(old(self).metaint as nat),
                ..old(self).state()
            }),
            final(self).progress == old(self).progress,
            final(self).metaint == old(self).metaint,
    {
        if self.metaint > 0 {
            self.tag = PhaseTag::Audio;
            self.left = self.metaint;
        } else {
            self.tag = PhaseTag::Length;
        }
    }

    /// Takes one raw byte; returns it when it is audio.
    fn step(&mut self, b: u8) -> (r: Option<u8>)
        requires
            old(self).valid(),
        ensures
            final(self).valid(),
            (final(self).state(), r) == icy_step(old(self).state(), b),
            final(self).progress == old(self).progress,
            final(self).metaint == old(self).metaint,
    {
        match self.tag {
            PhaseTag::Audio => {
                if self.left <= 1 {
                    self.tag = PhaseTag::Length;
                } else {
                    self.left = self.left - 1;
                }
                Some(b)
            },
            PhaseTag::Length => {
                if b == 0 {
                    self.enter_after_block();
                } else {
                    self.tag = PhaseTag::Block;
                    self.left = (b as usize) * 16;
                    self.block = Vec::new();
                    assert(self.block@ =~= Seq::<u8>::empty());
                }
                None
            },
            PhaseTag::Block => {
                self.block.push(b);
                if self.left <= 1 {
                    let parsed = parse_icy_metadata(self.block.as_slice());
                    self.metadata = parsed;
                    self.block = Vec::new();
                    assert(self.block@ =~= Seq::<u8>::empty());
                    self.enter_after_block();
                } else {
                    self.left = self.left - 1;
                }
                None
            },
        }
    }

    /// Takes a chunk of raw stream bytes and returns the audio bytes among
    /// them, with the metadata blocks taken out; a metadata block may be
    /// split over several chunks. When progress is tracked and the chunk held
    /// audio, `now` becomes the time of the last progress.
    pub fn feed(&mut self, input: &[u8], now: u64) -> (audio: Vec<u8>)
        requires
            old(self).valid(),
        ensures
            final(self).valid(),
            (final(self).state(), audio@) == icy_run(old(self).state(), input@),
            final(self).progress_spec() == (if old(self).progress_spec() is Some && audio@.len()
                > 0 {
                Some(now)
            } else {
                old(self).progress_spec()
            }),
    {
        let mut audio: Vec<u8> = Vec::new();
        let mut i: usize = 0;
        let ghost st0 = self.state();
        let ghost p0 = self.progress;
        assert(input@.take(0) =~= Seq::<u8>::empty());
        while i < input.len()
            invariant
                i <= input@.len(),
                self.valid(),
                self.progress == p0,
                (self.state(), audio@) == icy_run(st0, input@.take(i as int)),
            decreases input@.len() - i,
        {
            let ghost before = audio@;
            let r = self.step(input[i]);
            match r {
                Some(x) => {
                    audio.push(x);
                },
                None => {},
            }
            proof {
                assert(input@.take(i + 1).drop_last() =~= input@.take(i as int));
            }
            i = i + 1;
        }
        assert(input@.take(input@.len() as int) =~= input@);
        if audio.len() > 0 && self.progress.is_some() {
            self.progress = Some(now);
        }
        audio
    }

    /// The metadata of the last complete block, if it named a title.
    pub fn metadata(&self) -> (m: Option<IcyMetadata>)
        ensures
            opt_meta_view(m) == self.state().meta,
    {
        match &self.metadata {
            Some(m) => Some(m.duplicate()),
            None => None,
        }
    }

    pub fn last_progress_epoch_secs(&self) -> (p: Option<u64>)
        ensures
            p == self.progress_spec(),
    {
        self.progress
    }
}

// ---------------------------------------------------------------------------
// Plain HTTP streams and the common stream type
// ---------------------------------------------------------------------------

/// A stream without interleaved metadata: every byte is audio.
pub struct HttpStream {
    progress: Option<u64>,
}

impl HttpStream {
    pub closed spec fn progress_spec(&self) -> Option<u64> {
        self.progress
    }

    pub fn new(progress: Option<u64>) -> (s: HttpStream)
        ensures
            s.progress_spec() == progress,
    {
        HttpStream { progress }
    }

    /// Takes a chunk of stream bytes: all of it is audio.
    pub fn feed(&mut self, input: &[u8], now: u64) -> (audio: Vec<u8>)
        ensures
            audio@ == input@,
            final(self).progress_spec() == (if old(self).progress_spec() is Some && input@.len()
                > 0 {
                Some(now)
            } else {
                old(self).progress_spec()
            }),
    {
        if input.len() > 0 && self.progress.is_some() {
            self.progress = Some(now);
        }
        vstd::slice::slice_to_vec(input)
    }

    pub fn last_progress_epoch_secs(&self) -> (p: Option<u64>)
        ensures
            p == self.progress_spec(),
    {
        self.progress
    }
}

pub enum RadioStream {
    Http(HttpStream),
    Icy(IcyStream),
}

impl RadioStream {
    pub open spec fn valid(&self) -> bool {
        match self {
            RadioStream::Http(_) => true,
            RadioStream::Icy(s) => s.valid(),
        }
    }

    /// Takes a chunk of stream bytes and returns the audio among them.
    pub fn feed(&mut self, input: &[u8], now: u64) -> (audio: Vec<u8>)
        requires
            old(self).valid(),
        ensures
            final(self).valid(),
            match (*old(self), *final(self)) {
                (RadioStream::Http(_), RadioStream::Http(_)) => audio@ == input@,
                (RadioStream::Icy(a), RadioStream::Icy(b)) => (b.state(), audio@) == icy_run(
                    a.state(),
                    input@,
                ),
                _ => false,
            },
    {
        match self {
            RadioStream::Http(s) => s.feed(input, now),
            RadioStream::Icy(s) => s.feed(input, now),
        }
    }
}

// ---------------------------------------------------------------------------
// A reader that replays a prefix
// ---------------------------------------------------------------------------

/// Bytes already taken from a stream, to be read again before the rest of it.
pub struct PrefixedReader {
    prefix: Vec<u8>,
    position: usize,
}

impl PrefixedReader {
    pub closed spec fn remaining(&self) -> Seq<u8> {
        self.prefix@.subrange(self.position as int, self.prefix@.len() as int)
    }

    pub closed spec fn valid(&self) -> bool {
        self.position <= self.prefix@.len()
    }

    pub fn new(prefix: Vec<u8>) -> (r: PrefixedReader)
        ensures
            r.valid(),
            r.remaining() == prefix@,
    {
        let r = PrefixedReader { prefix, position: 0 };
        assert(r.remaining() =~= r.prefix@);
        r
    }

    /// Copies the next prefix bytes into `buf`, as many as fit, and returns
    /// how many. `0` means the prefix is used up (or `buf` is empty) and the
    /// rest of the stream is to be read.
    pub fn read(&mut self, buf: &mut [u8]) -> (n: usize)
        requires
            old(self).valid(),
        ensures
            final(self).valid(),
            n == if old(buf)@.len() < old(self).remaining().len() {
                old(buf)@.len()
            } else {
                old(self).remaining().len()
            },
            final(buf)@.len() == old(buf)@.len(),
            final(buf)@.subrange(0, n as int) == old(self).remaining().subrange(0, n as int),
            final(buf)@.subrange(n as int, old(buf)@.len() as int) == old(buf)@.subrange(
                n as int,
                old(buf)@.len() as int,
            ),
            final(self).remaining() == old(self).remaining().subrange(
                n as int,
                old(self).remaining().len() as int,
            ),
    {
        let avail: usize = self.prefix.len() - self.position;
        let n: usize = if buf.len() < avail {
            buf.len()
        } else {
            avail
        };
        let ghost rem = self.remaining();
        let ghost b0 = buf@;
        let mut i: usize = 0;
        while i < n
            invariant
                i <= n,
                n <= buf@.len(),
                buf@.len() == b0.len(),
                self.position + n <= self.prefix@.len(),
                self.prefix@.len() == self.prefix.len(),
                rem == self.prefix@.subrange(self.position as int, self.prefix@.len() as int),
                forall|j: int| 0 <= j < i ==> buf@[j] == rem[j],
                forall|j: int| i <= j < b0.len() ==> buf@[j] == b0[j],
            decreases n - i,
        {
            buf[i] = self.prefix[self.position + i];
            i = i + 1;
        }
        self.position = self.position + n;
        assert(buf@.subrange(0, n as int) =~= rem.subrange(0, n as int));
        assert(buf@.subrange(n as int, b0.len() as int) =~= b0.subrange(n as int, b0.len() as int));
        assert(self.remaining() =~= rem.subrange(n as int, rem.len() as int));
        n
    }
}

// ---------------------------------------------------------------------------
// The clock
// ---------------------------------------------------------------------------

#[verifier::external_type_specification]
#[verifier::external_body]
pub struct ExSystemTime(std::time::SystemTime);

#[verifier::external_type_specification]
#[verifier::external_body]
pub struct ExSystemTimeError(std::time::SystemTimeError);

/// `SystemTime::now`: nothing is known of the value.
#[verifier::external_body]
fn system_time_now() -> std::time::SystemTime {
    std::time::SystemTime::now()
}

/// `SystemTime::duration_since(UNIX_EPOCH)`: an error when the clock is
/// before the epoch; nothing else is known of the value.
#[verifier::external_body]
fn since_unix_epoch(t: &std::time::SystemTime) -> Result<
    std::time::Duration,
    std::time::SystemTimeError,
> {
    t.duration_since(std::time::UNIX_EPOCH)
}

/// `Duration::as_secs`: whole seconds; nothing is stated of the value.
#[verifier::external_body]
fn whole_seconds(d: &std::time::Duration) -> u64 {
    d.as_secs()
}

/// Seconds since the Unix epoch, `0` when the clock is set before it.
pub fn current_epoch_secs() -> u64 {
    let now = system_time_now();
    match since_unix_epoch(&now) {
        Ok(d) => whole_seconds(&d),
        Err(_) => 0,
    }
}

/// The metadata interval an `icy-metaint` header announces: the trimmed
/// header read as a `usize`, when that succeeds and is above `0`.
pub open spec fn header_metaint(header: Option<&str>) -> Option<nat> {
    match header {
        None => None,
        Some(h) => match parse_usize_spec(trim(h@)) {
            Some(n) => if n > 0 {
                Some(n)
            } else {
                None
            },
            None => None,
        },
    }
}

/// The stream reader for a response: an ICY demultiplexer with the interval
/// that the `icy-metaint` header announces, or plain HTTP when it announces
/// none; either starts with `now` as its last progress.
pub fn radio_stream_for(metaint_header: Option<&str>, now: u64) -> (s: RadioStream)
    ensures
        s.valid(),
        match header_metaint(metaint_header) {
            Some(n) => s matches RadioStream::Icy(icy) && icy.state() == icy_start(n) && icy.progress_spec()
                == Some(now),
            None => s matches RadioStream::Http(http) && http.progress_spec() == Some(now),
        },
{
    let metaint: Option<usize> = match metaint_header {
        None => None,
        Some(h) => {
            let v = chars_of(h);
            let (a, b) = trim_range(&v, 0, v.len());
            assert(v@.subrange(0, v@.len() as int) =~= h@);
            parse_usize_range(&v, a, b)
        },
    };
    match metaint {
        Some(n) => {
            if n > 0 {
                RadioStream::Icy(IcyStream::new(n, Some(now)))
            } else {
                RadioStream::Http(HttpStream::new(Some(now)))
            }
        },
        None => RadioStream::Http(HttpStream::new(Some(now))),
    }
}

// ---------------------------------------------------------------------------
// Laws
// ---------------------------------------------------------------------------

/// Splitting the raw stream into chunks changes nothing: running two chunks
/// one after the other gives the same state and the same audio as running
/// them joined.
pub proof fn lemma_icy_run_chunks(st: IcyState, a: Seq<u8>, b: Seq<u8>)
    ensures
        icy_run(st, a + b) == ({
            let (s1, o1) = icy_run(st, a);
            let (s2, o2) = icy_run(s1, b);
            (s2, o1 + o2)
        }),
    decreases b.len(),
{
    if b.len() == 0 {
        assert(a + b =~= a);
        let (s1, o1) = icy_run(st, a);
        assert(o1 + Seq::<u8>::empty() =~= o1);
    } else {
        lemma_icy_run_chunks(st, a, b.drop_last());
        assert((a + b).drop_last() =~= a + b.drop_last());
        assert((a + b).last() == b.last());
        let (s1, o1) = icy_run(st, a);
        let (s2, o2) = icy_run(s1, b.drop_last());
        let (s3, x) = icy_step(s2, b.last());
        match x {
            Some(y) => {
                assert(o1 + o2.push(y) =~= (o1 + o2).push(y));
            },
            None => {},
        }
    }
}

/// With metadata every `metaint > 0` bytes, a stream of `metaint` audio
/// bytes, an empty metadata block (length byte `0`) and more audio yields the
/// audio bytes only, and the metadata stays as it was.
pub proof fn lemma_icy_empty_block(metaint: nat, first: Seq<u8>, second: Seq<u8>)
    requires
        metaint > 0,
        first.len() == metaint,
        second.len() <= metaint,
    ensures
        icy_run(icy_start(metaint), first + seq![0u8] + second).1 == first + second,
        icy_run(icy_start(metaint), first + seq![0u8] + second).0.meta is None,
{
    lemma_icy_audio_run(icy_start(metaint), first);
    let s1 = icy_run(icy_start(metaint), first).0;
    assert(s1.phase == IcyPhase::Length);
    lemma_icy_run_chunks(icy_start(metaint), first, seq![0u8]);
    assert(icy_run(s1, seq![0u8]) == (IcyState { phase: phase_after_block(metaint), ..s1 },
        Seq::<u8>::empty())) by {
        assert(seq![0u8].drop_last() =~= Seq::<u8>::empty());
        assert(seq![0u8].last() == 0u8);
        assert(icy_run(s1, Seq::<u8>::empty()) == (s1, Seq::<u8>::empty()));
    }
    let s2 = IcyState { phase: phase_after_block(metaint), ..s1 };
    lemma_icy_run_chunks(icy_start(metaint), first + seq![0u8], second);
    lemma_icy_audio_run(s2, second);
    assert(first + Seq::<u8>::empty() =~= first);
}

/// A run of audio bytes no longer than what is left before the next metadata
/// block passes through unchanged.
pub proof fn lemma_icy_audio_run(st: IcyState, bytes: Seq<u8>)
    requires
        st.phase matches IcyPhase::Audio(left) && 0 < left && bytes.len() <= left,
    ensures
        icy_run(st, bytes).1 == bytes,
        icy_run(st, bytes).0.meta == st.meta,
        icy_run(st, bytes).0.metaint == st.metaint,
        icy_run(st, bytes).0.block == st.block,
        icy_run(st, bytes).0.phase == (if bytes.len() == st.phase->Audio_0 {
            IcyPhase::Length
        } else {
            IcyPhase::Audio((st.phase->Audio_0 - bytes.len()) as nat)
        }),
    decreases bytes.len(),
{
    if bytes.len() > 0 {
        lemma_icy_audio_run(st, bytes.drop_last());
        assert(bytes.drop_last().push(bytes.last()) =~= bytes);
    }
}

/// A run of bytes of a metadata block, no longer than what is left of it:
/// no audio comes out; the block is complete (and parsed) exactly when the
/// run reaches its end.
pub proof fn lemma_icy_block_run(st: IcyState, bytes: Seq<u8>)
    requires
        st.phase matches IcyPhase::Block(left) && 0 < left && bytes.len() <= left,
    ensures
        icy_run(st, bytes).1 == Seq::<u8>::empty(),
        icy_run(st, bytes).0.metaint == st.metaint,
        bytes.len() < st.phase->Block_0 ==> icy_run(st, bytes).0 == (IcyState {
            phase: IcyPhase::Block((st.phase->Block_0 - bytes.len()) as nat),
            block: st.block + bytes,
            ..st
        }),
        bytes.len() == st.phase->Block_0 ==> icy_run(st, bytes).0 == (IcyState {
            phase: phase_after_block(st.metaint),
            block: Seq::empty(),
            meta: parse_icy_metadata_spec(st.block + bytes),
            ..st
        }),
    decreases bytes.len(),
{
    if bytes.len() == 0 {
        assert(st.block + bytes =~= st.block);
    } else {
        lemma_icy_block_run(st, bytes.drop_last());
        assert((st.block + bytes.drop_last()).push(bytes.last()) =~= st.block + bytes);
    }
}

/// The audio chunks of a stream, joined.
pub open spec fn joined(a: Seq<Seq<u8>>) -> Seq<u8>
    decreases a.len(),
{
    if a.len() == 0 {
        Seq::empty()
    } else {
        a[0] + joined(a.drop_first())
    }
}

/// The bytes on the wire for audio chunks `a`, with between chunks `i` and
/// `i + 1` the length byte `l[i]` and the metadata block `m[i]`.
pub open spec fn wire(a: Seq<Seq<u8>>, l: Seq<u8>, m: Seq<Seq<u8>>) -> Seq<u8>
    decreases a.len(),
{
    if a.len() <= 1 || l.len() == 0 || m.len() == 0 {
        if a.len() == 0 {
            Seq::empty()
        } else {
            a[0]
        }
    } else {
        a[0] + seq![l[0]] + m[0] + wire(a.drop_first(), l.drop_first(), m.drop_first())
    }
}

/// The metadata after the blocks `m` with length bytes `l`: the parse of the
/// last block whose length byte is not `0`, or `old` when there is none.
pub open spec fn last_meta(l: Seq<u8>, m: Seq<Seq<u8>>, old: Option<MetaView>) -> Option<MetaView>
    decreases l.len(),
{
    if l.len() == 0 || m.len() == 0 {
        old
    } else {
        last_meta(
            l.drop_first(),
            m.drop_first(),
            if l[0] == 0 {
                old
            } else {
                parse_icy_metadata_spec(m[0])
            },
        )
    }
}

/// A well-formed stream: audio chunks of `metaint` bytes (the last one at
/// most that long), and between them a length byte and a metadata block of
/// 16 times that many bytes.
pub open spec fn well_formed_wire(metaint: nat, a: Seq<Seq<u8>>, l: Seq<u8>, m: Seq<Seq<u8>>) -> bool {
    &&& metaint > 0
    &&& a.len() >= 1
    &&& l.len() == a.len() - 1
    &&& m.len() == a.len() - 1
    &&& forall|i: int| 0 <= i < a.len() - 1 ==> (#[trigger] a[i]).len() == metaint
    &&& a[a.len() - 1].len() <= metaint
    &&& forall|i: int| 0 <= i < m.len() ==> (#[trigger] m[i]).len() == 16 * l[i]
}

proof fn lemma_icy_wire_from(st: IcyState, a: Seq<Seq<u8>>, l: Seq<u8>, m: Seq<Seq<u8>>)
    requires
        well_formed_wire(st.metaint, a, l, m),
        st.phase == IcyPhase::Audio(st.metaint),
    ensures
        icy_run(st, wire(a, l, m)).1 == joined(a),
        icy_run(st, wire(a, l, m)).0.meta == last_meta(l, m, st.meta),
    decreases a.len(),
{
    let metaint = st.metaint;
    if a.len() == 1 {
        lemma_icy_audio_run(st, a[0]);
        assert(a.drop_first().len() == 0);
        assert(joined(a) =~= a[0] + joined(a.drop_first()));
        assert(a[0] + Seq::<u8>::empty() =~= a[0]);
    } else {
        let a0 = a[0];
        let x = l[0];
        let m0 = m[0];
        let (ta, tl, tm) = (a.drop_first(), l.drop_first(), m.drop_first());
        let rest = wire(ta, tl, tm);
        assert(a0.len() == metaint);
        assert(m0.len() == 16 * x);
        assert(wire(a, l, m) == a0 + seq![x] + m0 + rest);
        // the audio chunk
        lemma_icy_audio_run(st, a0);
        let s1 = icy_run(st, a0).0;
        assert(s1.phase == IcyPhase::Length);
        // the length byte
        lemma_icy_run_chunks(st, a0, seq![x]);
        assert(seq![x].drop_last() =~= Seq::<u8>::empty());
        assert(seq![x].last() == x);
        assert(icy_run(s1, Seq::<u8>::empty()) == (s1, Seq::<u8>::empty()));
        let s2 = icy_step(s1, x).0;
        assert(icy_run(s1, seq![x]) == (s2, Seq::<u8>::empty()));
        // the metadata block
        lemma_icy_run_chunks(st, a0 + seq![x], m0);
        let s3 = icy_run(s2, m0).0;
        if x == 0 {
            assert(m0.len() == 0);
            assert(icy_run(s2, m0) == (s2, Seq::<u8>::empty()));
            assert(s3.meta == st.meta);
        } else {
            assert(s2.phase == IcyPhase::Block((x as nat) * 16));
            lemma_icy_block_run(s2, m0);
            assert(Seq::<u8>::empty() + m0 =~= m0);
            assert(s3.meta == parse_icy_metadata_spec(m0));
        }
        assert(s3.phase == IcyPhase::Audio(metaint));
        assert(s3.metaint == metaint);
        assert(icy_run(s2, m0).1 == Seq::<u8>::empty());
        // the rest of the stream
        assert(well_formed_wire(metaint, ta, tl, tm)) by {
            assert forall|i: int| 0 <= i < ta.len() - 1 implies (#[trigger] ta[i]).len() == metaint by {
                assert(ta[i] == a[i + 1]);
            }
            assert forall|i: int| 0 <= i < tm.len() implies (#[trigger] tm[i]).len() == 16 * tl[i] by {
                assert(tm[i] == m[i + 1] && tl[i] == l[i + 1]);
            }
            assert(ta[ta.len() - 1] == a[a.len() - 1]);
        }
        lemma_icy_wire_from(s3, ta, tl, tm);
        lemma_icy_run_chunks(st, a0 + seq![x] + m0, rest);
        let o1 = icy_run(st, a0 + seq![x] + m0).1;
        assert(o1 =~= a0 + Seq::<u8>::empty() + Seq::<u8>::empty());
        assert(o1 =~= a0);
        assert(joined(a) == a0 + joined(ta));
    }
}

/// Demultiplexing a well-formed stream: the audio that comes out is exactly
/// the audio chunks joined (no length or metadata byte, no audio byte lost),
/// and the metadata afterwards is the parse of the last non-empty block, or
/// none when every block is empty.
pub proof fn lemma_icy_demultiplexes(metaint: nat, a: Seq<Seq<u8>>, l: Seq<u8>, m: Seq<Seq<u8>>)
    requires
        well_formed_wire(metaint, a, l, m),
    ensures
        icy_run(icy_start(metaint), wire(a, l, m)).1 == joined(a),
        icy_run(icy_start(metaint), wire(a, l, m)).0.meta == last_meta(l, m, None),
{
    lemma_icy_wire_from(icy_start(metaint), a, l, m);
}

/// The bytes successive `PrefixedReader::read` calls hand out from the
/// prefix `rem`, with buffers of the sizes `sizes`: each call gives the next
/// bytes, as many as fit, until the prefix is used up.
pub open spec fn prefix_chunks(rem: Seq<u8>, sizes: Seq<nat>) -> Seq<u8>
    decreases sizes.len(),
{
    if sizes.len() == 0 || rem.len() == 0 {
        Seq::empty()
    } else {
        let n: int = if sizes[0] < rem.len() {
            sizes[0] as int
        } else {
            rem.len() as int
        };
        rem.take(n) + prefix_chunks(rem.skip(n), sizes.drop_first())
    }
}

/// Reading a prefix with non-empty buffers hands out its bytes in order and
/// none twice; once there have been as many reads as the prefix has bytes,
/// all of it has been handed out.
pub proof fn lemma_prefix_replayed(rem: Seq<u8>, sizes: Seq<nat>)
    requires
        forall|i: int| 0 <= i < sizes.len() ==> #[trigger] sizes[i] > 0,
    ensures
        prefix_chunks(rem, sizes).len() <= rem.len(),
        prefix_chunks(rem, sizes) == rem.take(prefix_chunks(rem, sizes).len() as int),
        sizes.len() >= rem.len() ==> prefix_chunks(rem, sizes) == rem,
    decreases sizes.len(),
{
    if sizes.len() == 0 || rem.len() == 0 {
        assert(rem.take(0) =~= Seq::<u8>::empty());
        if rem.len() == 0 {
            assert(rem =~= Seq::<u8>::empty());
        }
    } else {
        let n: int = if sizes[0] < rem.len() {
            sizes[0] as int
        } else {
            rem.len() as int
        };
        let tail = sizes.drop_first();
        assert forall|i: int| 0 <= i < tail.len() implies #[trigger] tail[i] > 0 by {
            assert(tail[i] == sizes[i + 1]);
        }
        lemma_prefix_replayed(rem.skip(n), tail);
        let rest = prefix_chunks(rem.skip(n), tail);
        assert(prefix_chunks(rem, sizes) == rem.take(n) + rest);
        assert(rem.take(n) + rest =~= rem.take(n + rest.len()));
        if sizes.len() >= rem.len() {
            assert(rest == rem.skip(n));
            assert(rem.take(n) + rem.skip(n) =~= rem);
        }
    }
}

proof fn lemma_nul_trimmed_end_keeps(s: Seq<char>, j: int, k: int)
    requires
        0 <= k < j <= s.len(),
        s[k] != '\0',
    ensures
        nul_trimmed_end(s, j) > k,
    decreases j,
{
    if s[j - 1] == '\0' {
        lemma_nul_trimmed_end_keeps(s, j - 1, k);
    }
}

/// The quoted title ends at the first `';`: for any title text `w` without
/// `';` in it and without whitespace at either end, the metadata text
/// `StreamTitle='w';` followed by anything gives the artist and title of
/// `w`. An apostrophe inside the title does not end it.
pub proof fn lemma_icy_title_ends_at_quote_semicolon(w: Seq<char>, rest: Seq<char>)
    requires
        w.len() > 0,
        !crate::text::is_whitespace(w[0]),
        !crate::text::is_whitespace(w[w.len() - 1]),
        !crate::text::contains(w, seq!['\'', ';']),
    ensures
        parse_icy_text_spec(stream_title_key() + w + seq!['\'', ';'] + rest) == Some(meta_from_title(w)),
{
    let key = stream_title_key();
    let qs = seq!['\'', ';'];
    let text = key + w + qs + rest;
    let n = w.len() as int;
    // the `;` after the title is no NUL, so it stays
    assert(text[13 + n + 1] == ';');
    lemma_nul_trimmed_end_keeps(text, text.len() as int, 13 + n + 1);
    lemma_nul_trimmed_end_bounds(text, text.len() as int);
    let ce = nul_trimmed_end(text, text.len() as int);
    let cleaned = text.subrange(0, ce);
    // the key is found at the start
    assert(cleaned.subrange(0, 13) =~= key);
    crate::text::lemma_find_first(cleaned, key, 0);
    let tail = cleaned.subrange(13, cleaned.len() as int);
    assert(tail.subrange(0, n) =~= w);
    assert(tail[n] == '\'' && tail[n + 1] == ';');
    assert(tail.subrange(n, n + 2) =~= qs);
    assert forall|j: int| 0 <= j < n implies !crate::text::occurs_at(tail, qs, j) by {
        if crate::text::occurs_at(tail, qs, j) {
            assert(tail.subrange(j, j + 2)[0] == tail[j]);
            assert(tail.subrange(j, j + 2)[1] == tail[j + 1]);
            if j + 1 < n {
                assert(w.subrange(j, j + 2) =~= qs);
                assert(crate::text::occurs_at(w, qs, j));
            } else {
                assert(tail[j + 1] == '\'');
            }
        }
    }
    crate::text::lemma_find_first(tail, qs, n);
    assert(title_end(tail) == Some(n));
    crate::text::lemma_trim_plain(w);
}

/// Without `';` anywhere after the key, the quoted title ends at the first
/// `'`: for a title text `w` with no apostrophe and no whitespace at either
/// end, `StreamTitle='w'` followed by text that brings no `';` gives the
/// artist and title of `w`.
pub proof fn lemma_icy_title_ends_at_quote(w: Seq<char>, rest: Seq<char>)
    requires
        w.len() > 0,
        !crate::text::is_whitespace(w[0]),
        !crate::text::is_whitespace(w[w.len() - 1]),
        forall|i: int| 0 <= i < w.len() ==> w[i] != '\'',
        !crate::text::contains(w + seq!['\''] + rest, seq!['\'', ';']),
    ensures
        parse_icy_text_spec(stream_title_key() + w + seq!['\''] + rest) == Some(meta_from_title(w)),
{
    let key = stream_title_key();
    let q = seq!['\''];
    let qs = seq!['\'', ';'];
    let body = w + q + rest;
    let text = key + w + q + rest;
    assert(text =~= key + body);
    let n = w.len() as int;
    assert(text[13 + n] == '\'');
    lemma_nul_trimmed_end_keeps(text, text.len() as int, 13 + n);
    lemma_nul_trimmed_end_bounds(text, text.len() as int);
    let ce = nul_trimmed_end(text, text.len() as int);
    let cleaned = text.subrange(0, ce);
    assert(cleaned.subrange(0, 13) =~= key);
    crate::text::lemma_find_first(cleaned, key, 0);
    let tail = cleaned.subrange(13, cleaned.len() as int);
    assert(tail =~= body.subrange(0, ce - 13));
    // no `';` in the tail, which is a prefix of `body`
    assert forall|j: int| 0 <= j implies !crate::text::occurs_at(tail, qs, j) by {
        if crate::text::occurs_at(tail, qs, j) {
            assert(tail.subrange(j, j + 2) =~= body.subrange(j, j + 2));
            assert(crate::text::occurs_at(body, qs, j));
        }
    }
    crate::text::lemma_find_from_sound(tail, qs, 0);
    assert(find(tail, qs) is None) by {
        if find(tail, qs) is Some {
            let k = find(tail, qs)->0;
            assert(crate::text::occurs_at(tail, qs, k));
        }
    }
    // the first `'` is the one after the title
    assert forall|j: int| 0 <= j < n implies !crate::text::occurs_at(tail, q, j) by {
        if crate::text::occurs_at(tail, q, j) {
            assert(tail.subrange(j, j + 1)[0] == tail[j]);
            assert(tail[j] == w[j]);
        }
    }
    assert(tail.subrange(n, n + 1) =~= q);
    crate::text::lemma_find_first(tail, q, n);
    assert(title_end(tail) == Some(n));
    assert(tail.subrange(0, n) =~= w);
    crate::text::lemma_trim_plain(w);
}

/// A stream title is split at its first ` - `: with an artist text `a`
/// that holds no ` - ` and does not end in a space or `-`, the title
/// `a - b` gives the artist `a` and the title `b`, whatever `b` holds (a
/// second ` - ` stays in the title). A title without ` - ` has no artist.
pub proof fn lemma_title_split_at_first_dash(a: Seq<char>, b: Seq<char>)
    requires
        !crate::text::contains(a, dash_separator()),
        a.len() > 0 ==> a[a.len() - 1] != ' ' && a[a.len() - 1] != '-',
    ensures
        meta_from_title(a + dash_separator() + b) == (MetaView { artist: Some(a), title: Some(b) }),
        !crate::text::contains(a, dash_separator()) ==> meta_from_title(a) == (MetaView {
            artist: None,
            title: Some(a),
        }),
{
    let dash = dash_separator();
    let s = a + dash + b;
    let n = a.len() as int;
    assert(s.subrange(n, n + 3) =~= dash);
    assert forall|j: int| 0 <= j < n implies !crate::text::occurs_at(s, dash, j) by {
        if crate::text::occurs_at(s, dash, j) {
            assert(s.subrange(j, j + 3)[0] == s[j]);
            assert(s.subrange(j, j + 3)[1] == s[j + 1]);
            assert(s.subrange(j, j + 3)[2] == s[j + 2]);
            if j + 3 <= n {
                assert(a.subrange(j, j + 3) =~= dash);
                assert(crate::text::occurs_at(a, dash, j));
            } else if j + 2 == n {
                assert(s[j + 1] == a[n - 1]);
            } else {
                assert(s[j] == a[n - 1]);
            }
        }
    }
    crate::text::lemma_find_first(s, dash, n);
    assert(s.subrange(0, n) =~= a);
    assert(s.subrange(n + 3, s.len() as int) =~= b);
    crate::text::lemma_find_is_contains(a, dash);
}

} // verus!
