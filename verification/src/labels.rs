//! Texts shown on the screens: durations, dates, stream quality, playback
//! state and connection progress.

use vstd::prelude::*;
use crate::text::{decimal, push_decimal, string_from_chars, chars_of, lower_chars, lower_seq,
    contains, contains_chars, push_str};

verus! {

/// A number with at least two digits, as `{:02}` writes it.
pub open spec fn pad2(n: nat) -> Seq<char> {
    if n < 10 {
        seq!['0'] + decimal(n)
    } else {
        decimal(n)
    }
}

fn push_pad2(out: &mut Vec<char>, n: u64)
    ensures
        final(out)@ == old(out)@ + pad2(n as nat),
{
    if n < 10 {
        out.push('0');
    }
    let ghost mid = out@;
    push_decimal(out, n);
    proof {
        if n < 10 {
            assert(mid == old(out)@.push('0'));
            assert(old(out)@ + pad2(n as nat) =~= mid + decimal(n as nat));
        }
    }
}

/// `HH:MM:SS` (hours may take more than two digits).
pub open spec fn duration_text(total: u64) -> Seq<char> {
    pad2((total / 3600) as nat) + seq![':'] + pad2(((total % 3600) / 60) as nat) + seq![':'] + pad2(
        (total % 60) as nat,
    )
}

pub fn format_duration(total_secs: u64) -> (s: String)
    ensures
        s@ == duration_text(total_secs),
{
    let mut out: Vec<char> = Vec::new();
    push_pad2(&mut out, total_secs / 3600);
    out.push(':');
    push_pad2(&mut out, (total_secs % 3600) / 60);
    out.push(':');
    push_pad2(&mut out, total_secs % 60);
    assert(out@ =~= duration_text(total_secs));
    string_from_chars(out.as_slice())
}

/// `d<days> HH:MM UTC`: the day number since the epoch and the time of day.
pub open spec fn epoch_text(epoch: u64) -> Seq<char> {
    seq!['d'] + decimal((epoch / 86400) as nat) + seq![' '] + pad2(((epoch % 86400) / 3600) as nat)
        + seq![':'] + pad2((((epoch % 86400) % 3600) / 60) as nat) + seq![' ', 'U', 'T', 'C']
}

pub fn format_epoch_secs(epoch: u64) -> (s: String)
    ensures
        s@ == epoch_text(epoch),
{
    let days: u64 = epoch / 86400;
    let day_secs: u64 = epoch % 86400;
    let mut out: Vec<char> = Vec::new();
    out.push('d');
    push_decimal(&mut out, days);
    out.push(' ');
    push_pad2(&mut out, day_secs / 3600);
    out.push(':');
    push_pad2(&mut out, (day_secs % 3600) / 60);
    out.push(' ');
    out.push('U');
    out.push('T');
    out.push('C');
    assert(out@ =~= epoch_text(epoch));
    string_from_chars(out.as_slice())
}

/// `<kbps> kbps`, or `Unknown`.
pub open spec fn bitrate_text(kbps: Option<u32>) -> Seq<char> {
    match kbps {
        Some(k) => decimal(k as nat) + seq![' ', 'k', 'b', 'p', 's'],
        None => seq!['U', 'n', 'k', 'n', 'o', 'w', 'n'],
    }
}

pub fn stream_bitrate_label(kbps: Option<u32>) -> (s: String)
    ensures
        s@ == bitrate_text(kbps),
{
    let mut out: Vec<char> = Vec::new();
    match kbps {
        Some(k) => {
            push_decimal(&mut out, k as u64);
            out.push(' ');
            out.push('k');
            out.push('b');
            out.push('p');
            out.push('s');
        },
        None => {
            out.push('U');
            out.push('n');
            out.push('k');
            out.push('n');
            out.push('o');
            out.push('w');
            out.push('n');
        },
    }
    assert(out@ =~= bitrate_text(kbps));
    string_from_chars(out.as_slice())
}

/// The format name of a content type: MP3, AAC, OGG/Vorbis, FLAC or WAV
/// when the lowercased type mentions one of them (checked in that order),
/// the type itself otherwise, and `Unknown` without a type.
pub open spec fn quality_text(content_type: Option<Seq<char>>) -> Seq<char> {
    match content_type {
        None => "Unknown"@,
        Some(ct) => {
            let l = lower_seq(ct);
            if contains(l, "mpeg"@) || contains(l, "mp3"@) {
                "MP3"@
            } else if contains(l, "aac"@) || contains(l, "m4a"@) || contains(l, "mp4"@) {
                "AAC"@
            } else if contains(l, "vorbis"@) || contains(l, "ogg"@) {
                "OGG/Vorbis"@
            } else if contains(l, "flac"@) {
                "FLAC"@
            } else if contains(l, "wav"@) {
                "WAV"@
            } else {
                ct
            }
        },
    }
}

fn mentions(l: &Vec<char>, word: &str) -> (b: bool)
    ensures
        b == contains(l@, word@),
{
    let w = chars_of(word);
    contains_chars(l, w.as_slice())
}

pub fn stream_human_quality_label(content_type: Option<&str>) -> (s: String)
    ensures
        s@ == quality_text(
            match content_type {
                Some(c) => Some(c@),
                None => None,
            },
        ),
{
    let ct = match content_type {
        None => {
            return String::from_str("Unknown");
        },
        Some(c) => c,
    };
    let l = lower_chars(&chars_of(ct));
    if mentions(&l, "mpeg") || mentions(&l, "mp3") {
        return String::from_str("MP3");
    }
    if mentions(&l, "aac") || mentions(&l, "m4a") || mentions(&l, "mp4") {
        return String::from_str("AAC");
    }
    if mentions(&l, "vorbis") || mentions(&l, "ogg") {
        return String::from_str("OGG/Vorbis");
    }
    if mentions(&l, "flac") {
        return String::from_str("FLAC");
    }
    if mentions(&l, "wav") {
        return String::from_str("WAV");
    }
    String::from_str(ct)
}

/// The playback state shown in the player.
pub open spec fn playback_state_text(is_connecting: bool, has_active_stream: bool, is_paused: bool) -> Seq<char> {
    if is_connecting {
        "Connecting"@
    } else if !has_active_stream {
        "Stopped"@
    } else if is_paused {
        "Paused"@
    } else {
        "Playing"@
    }
}

pub fn playback_state_label(is_connecting: bool, has_active_stream: bool, is_paused: bool) -> (s:
    &'static str)
    ensures
        s@ == playback_state_text(is_connecting, has_active_stream, is_paused),
{
    if is_connecting {
        "Connecting"
    } else if !has_active_stream {
        "Stopped"
    } else if is_paused {
        "Paused"
    } else {
        "Playing"
    }
}

/// `ON` or `OFF`.
pub open spec fn on_off_text(b: bool) -> Seq<char> {
    if b {
        "ON"@
    } else {
        "OFF"@
    }
}

pub fn on_off_label(b: bool) -> (s: &'static str)
    ensures
        s@ == on_off_text(b),
{
    if b {
        "ON"
    } else {
        "OFF"
    }
}

/// The frames of the connection spinner.
pub open spec fn spinner_frame(i: nat) -> Seq<char> {
    if i == 0 {
        seq!['|']
    } else if i == 1 {
        seq!['/']
    } else if i == 2 {
        seq!['-']
    } else {
        seq!['\\']
    }
}

pub const SPINNER_FRAME_COUNT: usize = 4;

/// `<frame> Trying <attempt>/<total>: <name>`, attempt and total shown as at
/// least 1.
pub open spec fn progress_text(spinner: nat, attempt: nat, total: nat, name: Seq<char>) -> Seq<char> {
    spinner_frame(spinner) + seq![' ', 'T', 'r', 'y', 'i', 'n', 'g', ' '] + decimal(
        if attempt > 0 {
            attempt
        } else {
            1
        },
    ) + seq!['/'] + decimal(
        if total > 0 {
            total
        } else {
            1
        },
    ) + seq![':', ' '] + name
}

pub fn connection_progress_text(spinner: usize, attempt: usize, total: usize, name: &str) -> (s:
    String)
    requires
        spinner < SPINNER_FRAME_COUNT,
    ensures
        s@ == progress_text(spinner as nat, attempt as nat, total as nat, name@),
{
    let mut out: Vec<char> = Vec::new();
    if spinner == 0 {
        out.push('|');
    } else if spinner == 1 {
        out.push('/');
    } else if spinner == 2 {
        out.push('-');
    } else {
        out.push('\\');
    }
    out.push(' ');
    out.push('T');
    out.push('r');
    out.push('y');
    out.push('i');
    out.push('n');
    out.push('g');
    out.push(' ');
    let a: u64 = if attempt > 0 {
        attempt as u64
    } else {
        1
    };
    let t: u64 = if total > 0 {
        total as u64
    } else {
        1
    };
    push_decimal(&mut out, a);
    out.push('/');
    push_decimal(&mut out, t);
    out.push(':');
    out.push(' ');
    push_str(&mut out, name);
    assert(out@ =~= progress_text(spinner as nat, attempt as nat, total as nat, name@));
    string_from_chars(out.as_slice())
}

} // verus!
