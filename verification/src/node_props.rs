//! Reading what PipeWire node properties say about a node: channel labels,
//! numeric tokens, the channel count a position map implies, and the peak
//! sample magnitudes of a raw 16-bit capture.

use vstd::prelude::*;
use crate::text::{ascii_upper, chars_of, decimal, decimal_string, is_ascii_letter, push_char, to_ascii_upper};

verus! {

/// Which characters make up a token.
#[derive(Clone, Copy, PartialEq, Eq, Debug)]
pub enum TokenClass {
    /// Channel-position labels such as `FL`: ASCII letters and `_`, upper-cased.
    Label,
    /// Candidate numbers: ASCII digits, `.`, `-`, `+`, `e`, `E`, kept as they are.
    Number,
}

/// `c` belongs to a token of `class`.
pub open spec fn in_class(class: TokenClass, c: char) -> bool {
    match class {
        TokenClass::Label => is_ascii_letter(c) || c == '_',
        TokenClass::Number => ('0' <= c && c <= '9') || c == '.' || c == '-' || c == '+' || c == 'e'
            || c == 'E',
    }
}

/// How a character of `class` appears in its token.
pub open spec fn token_char(class: TokenClass, c: char) -> char {
    match class {
        TokenClass::Label => ascii_upper(c),
        TokenClass::Number => c,
    }
}

/// Left-to-right scan of `s`: the tokens already closed and the token still
/// open after the last character.
pub open spec fn scan(class: TokenClass, s: Seq<char>) -> (Seq<Seq<char>>, Seq<char>)
    decreases s.len(),
{
    if s.len() == 0 {
        (Seq::empty(), Seq::empty())
    } else {
        let (done, open) = scan(class, s.drop_last());
        let c = s.last();
        if in_class(class, c) {
            (done, open.push(token_char(class, c)))
        } else if open.len() == 0 {
            (done, open)
        } else {
            (done.push(open), Seq::empty())
        }
    }
}

/// The maximal runs of `class` characters in `s`, in order.
pub open spec fn tokens(class: TokenClass, s: Seq<char>) -> Seq<Seq<char>> {
    let (done, open) = scan(class, s);
    if open.len() == 0 {
        done
    } else {
        done.push(open)
    }
}

/// The characters of `s` that belong to `class`, as they appear in tokens.
pub open spec fn class_chars(class: TokenClass, s: Seq<char>) -> Seq<char> {
    s.filter(|c: char| in_class(class, c)).map_values(|c: char| token_char(class, c))
}

proof fn lemma_scan_keeps_class_chars(class: TokenClass, s: Seq<char>)
    ensures
        scan(class, s).0.flatten() + scan(class, s).1 == class_chars(class, s),
        forall|i: int| 0 <= i < scan(class, s).0.len() ==> (#[trigger] scan(class, s).0[i]).len() > 0,
    decreases s.len(),
{
    broadcast use Seq::lemma_flatten_push;

    if s.len() == 0 {
        assert(class_chars(class, s) =~= Seq::<char>::empty());
    } else {
        let rest = s.drop_last();
        lemma_scan_keeps_class_chars(class, rest);
        let (done, open) = scan(class, rest);
        let c = s.last();
        let p = |c: char| in_class(class, c);
        let f = |c: char| token_char(class, c);
        reveal(Seq::filter);
        assert(s.drop_last() == rest);
        assert(s.filter(p) == (if p(c) { rest.filter(p).push(c) } else { rest.filter(p) }));
        if in_class(class, c) {
            assert(rest.filter(p).push(c).map_values(f) =~= rest.filter(p).map_values(f).push(f(c)));
            assert(done.flatten() + open.push(token_char(class, c)) =~= (done.flatten() + open).push(
                token_char(class, c),
            ));
        } else if open.len() == 0 {
            assert(done.flatten() + open =~= done.flatten());
        } else {
            assert(done.push(open).flatten() =~= done.flatten() + open);
            assert(done.push(open).flatten() + Seq::<char>::empty() =~= done.push(open).flatten());
            assert forall|i: int| 0 <= i < done.push(open).len() implies (#[trigger] done.push(
                open,
            )[i]).len() > 0 by {
                if i < done.len() {
                    assert(done.push(open)[i] == done[i]);
                }
            }
        }
    }
}

/// Tokenizing loses and adds nothing: the tokens, joined, are exactly the
/// `class` characters of `s` in order (labels upper-cased), and no token is
/// empty.
pub proof fn lemma_tokens_keep_class_chars(class: TokenClass, s: Seq<char>)
    ensures
        tokens(class, s).flatten() == class_chars(class, s),
        forall|i: int| 0 <= i < tokens(class, s).len() ==> (#[trigger] tokens(class, s)[i]).len() > 0,
{
    broadcast use Seq::lemma_flatten_push;

    lemma_scan_keeps_class_chars(class, s);
    let (done, open) = scan(class, s);
    if open.len() == 0 {
        assert(done.flatten() + open =~= done.flatten());
    } else {
        assert(done.push(open).flatten() =~= done.flatten() + open);
        assert forall|i: int| 0 <= i < done.push(open).len() implies (#[trigger] done.push(open)[i]).len()
            > 0 by {
            if i < done.len() {
                assert(done.push(open)[i] == done[i]);
            }
        }
    }
}

/// The character views of a list of strings.
pub open spec fn views(v: Seq<String>) -> Seq<Seq<char>> {
    v.map_values(|s: String| s@)
}

fn in_class_exec(class: TokenClass, c: char) -> (b: bool)
    ensures
        b == in_class(class, c),
{
    match class {
        TokenClass::Label => ('a' <= c && c <= 'z') || ('A' <= c && c <= 'Z') || c == '_',
        TokenClass::Number => ('0' <= c && c <= '9') || c == '.' || c == '-' || c == '+' || c == 'e'
            || c == 'E',
    }
}

/// Splits `raw` into the maximal runs of `class` characters.
pub fn tokenize(raw: &str, class: TokenClass) -> (out: Vec<String>)
    ensures
        views(out@) == tokens(class, raw@),
        views(out@).flatten() == class_chars(class, raw@),
        forall|i: int| 0 <= i < out@.len() ==> (#[trigger] out@[i])@.len() > 0,
{
    proof {
        lemma_tokens_keep_class_chars(class, raw@);
    }
    let chars = chars_of(raw);
    let mut out: Vec<String> = Vec::new();
    let mut token = String::new();
    let mut i: usize = 0;
    assert(raw@.take(0) =~= Seq::<char>::empty());
    assert(views(out@) =~= Seq::<Seq<char>>::empty());
    while i < chars.len()
        invariant
            chars@ == raw@,
            i <= chars.len(),
            views(out@) == scan(class, raw@.take(i as int)).0,
            token@ == scan(class, raw@.take(i as int)).1,
        decreases chars.len() - i,
    {
        let c = chars[i];
        let ghost prefix = raw@.take(i + 1);
        assert(prefix.drop_last() =~= raw@.take(i as int));
        assert(prefix.last() == c);
        if in_class_exec(class, c) {
            let t = match class {
                TokenClass::Label => to_ascii_upper(c),
                TokenClass::Number => c,
            };
            push_char(&mut token, t);
        } else if !token.as_str().is_empty() {
            let ghost before = out@;
            out.push(token.clone());
            assert(views(out@) =~= views(before).push(token@));
            token = String::new();
        } else {
            assert(token@.len() == 0);
        }
        i = i + 1;
    }
    assert(raw@.take(i as int) =~= raw@);
    if !token.as_str().is_empty() {
        let ghost before = out@;
        out.push(token);
        assert(views(out@) =~= views(before).push(token@));
    }
    assert forall|i: int| 0 <= i < out@.len() implies (#[trigger] out@[i])@.len() > 0 by {
        assert(views(out@)[i] == out@[i]@);
    }
    out
}

/// The channel-position labels of a position map such as `[ FL, FR ]`.
pub fn parse_channel_labels(raw: &str) -> (labels: Vec<String>)
    ensures
        views(labels@) == tokens(TokenClass::Label, raw@),
{
    tokenize(raw, TokenClass::Label)
}

/// The runs of number characters in `raw`, each a candidate number.
pub fn numeric_tokens(raw: &str) -> (candidates: Vec<String>)
    ensures
        views(candidates@) == tokens(TokenClass::Number, raw@),
{
    tokenize(raw, TokenClass::Number)
}

/// The channel count a list of position labels implies: one for a `MONO`
/// label, two for a `STEREO` label, otherwise the number of labels (at most
/// 64) when there are at least two; nothing for no labels or a single one.
pub open spec fn channel_count(labels: Seq<Seq<char>>) -> Option<u8> {
    if labels.len() == 0 {
        None
    } else if labels.contains("MONO"@) {
        Some(1)
    } else if labels.contains("STEREO"@) {
        Some(2)
    } else if labels.len() == 1 {
        None
    } else if labels.len() <= 64 {
        Some(labels.len() as u8)
    } else {
        Some(64)
    }
}

/// What a list of position labels says about the channel count: `MONO`
/// means one channel and `STEREO` two; otherwise each label is one
/// channel, up to 64, and a lone label or no label at all says nothing.
pub proof fn lemma_channel_count_cases(labels: Seq<Seq<char>>)
    ensures
        labels.contains("MONO"@) ==> channel_count(labels) == Some(1u8),
        !labels.contains("MONO"@) && labels.contains("STEREO"@) ==> channel_count(labels)
            == Some(2u8),
        !labels.contains("MONO"@) && !labels.contains("STEREO"@) && 2 <= labels.len() <= 64
            ==> channel_count(labels) == Some(labels.len() as u8),
        !labels.contains("MONO"@) && !labels.contains("STEREO"@) && labels.len() > 64
            ==> channel_count(labels) == Some(64u8),
        channel_count(labels) is None <==> (labels.len() == 0 || (labels.len() == 1
            && !labels.contains("MONO"@) && !labels.contains("STEREO"@))),
{
    if labels.len() == 0 {
        assert(!labels.contains("MONO"@));
        assert(!labels.contains("STEREO"@));
    }
}

fn has_label(labels: &Vec<String>, wanted: &String) -> (found: bool)
    ensures
        found == views(labels@).contains(wanted@),
{
    let mut i: usize = 0;
    while i < labels.len()
        invariant
            i <= labels.len(),
            forall|k: int| 0 <= k < i ==> labels@[k]@ != wanted@,
        decreases labels.len() - i,
    {
        if labels[i] == *wanted {
            assert(views(labels@)[i as int] == wanted@);
            return true;
        }
        i = i + 1;
    }
    assert forall|k: int| 0 <= k < views(labels@).len() implies views(labels@)[k] != wanted@ by {
        assert(views(labels@)[k] == labels@[k]@);
    }
    false
}

/// The channel count that the labels of a position map imply.
pub fn channels_from_labels(labels: &Vec<String>) -> (count: Option<u8>)
    ensures
        count == channel_count(views(labels@)),
        views(labels@).contains("MONO"@) ==> count == Some(1u8),
        !views(labels@).contains("MONO"@) && views(labels@).contains("STEREO"@) ==> count == Some(
            2u8,
        ),
        !views(labels@).contains("MONO"@) && !views(labels@).contains("STEREO"@) && labels@.len()
            > 64 ==> count == Some(64u8),
        !views(labels@).contains("MONO"@) && !views(labels@).contains("STEREO"@) && 2
            <= labels@.len() <= 64 ==> count == Some(labels@.len() as u8),
        count is None <==> (labels@.len() == 0 || (labels@.len() == 1 && !views(
            labels@,
        ).contains("MONO"@) && !views(labels@).contains("STEREO"@))),
{
    proof {
        lemma_channel_count_cases(views(labels@));
    }

    if labels.len() == 0 {
        return None;
    }
    let mono = "MONO".to_owned();
    let stereo = "STEREO".to_owned();
    if has_label(labels, &mono) {
        Some(1)
    } else if has_label(labels, &stereo) {
        Some(2)
    } else if labels.len() == 1 {
        None
    } else if labels.len() <= 64 {
        Some(labels.len() as u8)
    } else {
        Some(64)
    }
}

/// The channel count that a position-map property value implies.
pub fn channels_from_position_map(raw: &str) -> (count: Option<u8>)
    ensures
        count == channel_count(tokens(TokenClass::Label, raw@)),
        ({
            let labels = tokens(TokenClass::Label, raw@);
            &&& labels.contains("MONO"@) ==> count == Some(1u8)
            &&& !labels.contains("MONO"@) && labels.contains("STEREO"@) ==> count == Some(2u8)
            &&& !labels.contains("MONO"@) && !labels.contains("STEREO"@) && 2 <= labels.len() <= 64
                ==> count == Some(labels.len() as u8)
            &&& !labels.contains("MONO"@) && !labels.contains("STEREO"@) && labels.len() > 64
                ==> count == Some(64u8)
            &&& (count is None <==> (labels.len() == 0 || (labels.len() == 1 && !labels.contains(
                "MONO"@,
            ) && !labels.contains("STEREO"@))))
        }),
{
    proof {
        lemma_channel_count_cases(tokens(TokenClass::Label, raw@));
    }
    let labels = parse_channel_labels(raw);
    channels_from_labels(&labels)
}

/// Channels to capture from a source for metering: its channel hint brought
/// into one or two, two when it has none.
pub open spec fn meter_channels(hint: Option<u8>) -> u8 {
    match hint {
        None => 2,
        Some(n) => if n < 1 { 1 } else if n > 2 { 2 } else { n },
    }
}

/// A meter captures one or two channels: a source without a hint gets two,
/// a hint of one or two is taken as it is, a larger hint gets two and a
/// hint of zero gets one.
pub proof fn lemma_meter_channels_clamped(hint: Option<u8>)
    ensures
        1 <= meter_channels(hint) <= 2,
        hint is None ==> meter_channels(hint) == 2,
        forall|n: u8| 1 <= n <= 2 ==> #[trigger] meter_channels(Some(n)) == n,
        forall|n: u8| n > 2 ==> #[trigger] meter_channels(Some(n)) == 2,
        meter_channels(Some(0u8)) == 1,
{
}

/// The channel count a meter capture uses for a source with `hint`.
pub fn meter_channel_count(hint: Option<u8>) -> (channels: u8)
    ensures
        channels == meter_channels(hint),
        1 <= channels <= 2,
        hint is None ==> channels == 2,
        hint matches Some(n) ==> ((1 <= n <= 2 ==> channels == n) && (n > 2 ==> channels == 2)
            && (n == 0 ==> channels == 1)),
{
    proof {
        lemma_meter_channels_clamped(hint);
    }

    let n = match hint {
        None => 2u8,
        Some(n) => n,
    };
    if n < 1 {
        1
    } else if n > 2 {
        2
    } else {
        n
    }
}

/// Magnitude of the little-endian signed 16-bit sample at `at`
/// (32768 for the most negative sample).
pub open spec fn sample_magnitude(bytes: Seq<u8>, at: int) -> int {
    let raw = bytes[at] as int + 256 * (bytes[at + 1] as int);
    if raw >= 32768 {
        65536 - raw
    } else {
        raw
    }
}

/// A sample's magnitude is the absolute value of the signed 16-bit number
/// whose low byte comes first: between 0 and 32768.
pub proof fn lemma_sample_magnitude_is_abs(bytes: Seq<u8>, at: int)
    ensures
        ({
            let value = bytes[at] as int + 256 * (bytes[at + 1] as int) - (if bytes[at + 1] >= 128 {
                65536int
            } else {
                0int
            });
            sample_magnitude(bytes, at) == (if value < 0 {
                -value
            } else {
                value
            })
        }),
        0 <= sample_magnitude(bytes, at) <= 32768,
{
}

/// Largest magnitude of the sample at byte `offset` of every whole frame of
/// `stride` bytes from byte `pos` on (0 when there is none).
pub open spec fn peak_from(bytes: Seq<u8>, stride: int, offset: int, pos: int) -> int
    decreases bytes.len() - pos,
{
    if stride <= 0 || pos < 0 || pos + stride > bytes.len() {
        0
    } else {
        let here = sample_magnitude(bytes, pos + offset);
        let later = peak_from(bytes, stride, offset, pos + stride);
        if here >= later {
            here
        } else {
            later
        }
    }
}

/// Bytes per frame of a 16-bit capture with `channels` channels.
pub open spec fn frame_bytes(channels: u8) -> int {
    if channels == 0 {
        2
    } else {
        2 * channels
    }
}

/// Peak sample magnitudes (left, right) of a raw capture: the right channel
/// repeats the left one for mono and is silent for a zero channel count.
pub open spec fn peak_magnitudes(bytes: Seq<u8>, channels: u8) -> (int, int) {
    let left = peak_from(bytes, frame_bytes(channels), 0, 0);
    let right = if channels > 1 {
        peak_from(bytes, frame_bytes(channels), 2, 0)
    } else if channels == 1 {
        left
    } else {
        0
    };
    (left, right)
}

/// Magnitude of the sample at byte `offset` of frame `k`, where frames of
/// `stride` bytes start at byte `first`.
pub open spec fn frame_sample(bytes: Seq<u8>, stride: int, offset: int, first: int, k: int) -> int {
    sample_magnitude(bytes, first + k * stride + offset)
}

proof fn lemma_peak_from_frames(bytes: Seq<u8>, stride: int, offset: int, pos: int)
    requires
        stride > 0,
        0 <= offset,
        offset + 2 <= stride,
        pos >= 0,
    ensures
        forall|k: int|
            0 <= k && pos + k * stride + stride <= bytes.len() ==> peak_from(bytes, stride, offset, pos)
                >= #[trigger] frame_sample(bytes, stride, offset, pos, k),
        peak_from(bytes, stride, offset, pos) == 0 || exists|k: int|
            0 <= k && pos + k * stride + stride <= bytes.len() && peak_from(bytes, stride, offset, pos)
                == #[trigger] frame_sample(bytes, stride, offset, pos, k),
    decreases bytes.len() - pos,
{
    if pos + stride > bytes.len() {
        assert forall|k: int|
            0 <= k && pos + k * stride + stride <= bytes.len() implies peak_from(
                bytes,
                stride,
                offset,
                pos,
            ) >= #[trigger] frame_sample(bytes, stride, offset, pos, k) by {
            assert(k * stride >= 0) by (nonlinear_arith)
                requires
                    0 <= k,
                    stride > 0,
            ;
        }
    } else {
        let next = pos + stride;
        lemma_peak_from_frames(bytes, stride, offset, next);
        let here = sample_magnitude(bytes, pos + offset);
        let later = peak_from(bytes, stride, offset, next);
        assert(frame_sample(bytes, stride, offset, pos, 0) == here);
        assert(here >= 0);
        assert forall|k: int|
            0 <= k && pos + k * stride + stride <= bytes.len() implies peak_from(
                bytes,
                stride,
                offset,
                pos,
            ) >= #[trigger] frame_sample(bytes, stride, offset, pos, k) by {
            if k > 0 {
                assert(next + (k - 1) * stride == pos + k * stride) by (nonlinear_arith)
                    requires
                        next == pos + stride,
                ;
                assert(frame_sample(bytes, stride, offset, next, k - 1) == frame_sample(
                    bytes,
                    stride,
                    offset,
                    pos,
                    k,
                ));
            }
        }
        if here < later {
            let k = choose|k: int|
                0 <= k && next + k * stride + stride <= bytes.len() && later
                    == #[trigger] frame_sample(bytes, stride, offset, next, k);
            assert(next + k * stride == pos + (k + 1) * stride) by (nonlinear_arith)
                requires
                    next == pos + stride,
            ;
            assert(frame_sample(bytes, stride, offset, next, k) == frame_sample(
                bytes,
                stride,
                offset,
                pos,
                k + 1,
            ));
        }
    }
}

/// The peaks of a capture are taken over every whole frame: the left peak
/// is at least the magnitude of the first sample of each whole frame and,
/// for two or more channels, the right peak is at least that of the second
/// sample of each whole frame; each peak is the magnitude of one such
/// sample, or 0 when there is no whole frame. A frame holds two bytes per
/// channel. A mono capture repeats the left peak on the right.
pub proof fn lemma_peaks_cover_every_frame(bytes: Seq<u8>, channels: u8)
    ensures
        forall|k: int|
            0 <= k && k * frame_bytes(channels) + frame_bytes(channels) <= bytes.len() ==> peak_magnitudes(
                bytes,
                channels,
            ).0 >= #[trigger] frame_sample(bytes, frame_bytes(channels), 0, 0, k),
        peak_magnitudes(bytes, channels).0 == 0 || exists|k: int|
            0 <= k && k * frame_bytes(channels) + frame_bytes(channels) <= bytes.len()
                && peak_magnitudes(bytes, channels).0 == #[trigger] frame_sample(
                bytes,
                frame_bytes(channels),
                0,
                0,
                k,
            ),
        channels >= 2 ==> forall|k: int|
            0 <= k && k * frame_bytes(channels) + frame_bytes(channels) <= bytes.len() ==> peak_magnitudes(
                bytes,
                channels,
            ).1 >= #[trigger] frame_sample(bytes, frame_bytes(channels), 2, 0, k),
        channels >= 2 ==> (peak_magnitudes(bytes, channels).1 == 0 || exists|k: int|
            0 <= k && k * frame_bytes(channels) + frame_bytes(channels) <= bytes.len()
                && peak_magnitudes(bytes, channels).1 == #[trigger] frame_sample(
                bytes,
                frame_bytes(channels),
                2,
                0,
                k,
            )),
        channels == 1 ==> peak_magnitudes(bytes, channels).1 == peak_magnitudes(bytes, channels).0,
        channels == 0 ==> peak_magnitudes(bytes, channels).1 == 0,
        channels >= 1 ==> frame_bytes(channels) == 2 * channels,
{
    let f = frame_bytes(channels);
    lemma_peak_from_frames(bytes, f, 0, 0);
    if channels >= 2 {
        lemma_peak_from_frames(bytes, f, 2, 0);
    }
}

fn magnitude_at(bytes: &[u8], at: usize) -> (m: u32)
    requires
        at + 1 < bytes@.len(),
    ensures
        m == sample_magnitude(bytes@, at as int),
        m <= 32768,
{
    let raw: u32 = bytes[at] as u32 + 256 * (bytes[at + 1] as u32);
    if raw >= 32768 {
        65536 - raw
    } else {
        raw
    }
}

/// Peak sample magnitudes of a raw little-endian 16-bit capture with
/// `channels` interleaved channels; a trailing partial frame is ignored.
pub fn decode_peak_samples(bytes: &[u8], channels: u8) -> (peaks: (u32, u32))
    ensures
        peaks.0 == peak_magnitudes(bytes@, channels).0,
        peaks.1 == peak_magnitudes(bytes@, channels).1,
        forall|k: int|
            0 <= k && k * frame_bytes(channels) + frame_bytes(channels) <= bytes@.len() ==> peaks.0
                >= #[trigger] frame_sample(bytes@, frame_bytes(channels), 0, 0, k),
        channels >= 2 ==> forall|k: int|
            0 <= k && k * frame_bytes(channels) + frame_bytes(channels) <= bytes@.len() ==> peaks.1
                >= #[trigger] frame_sample(bytes@, frame_bytes(channels), 2, 0, k),
        peaks.0 == 0 || exists|k: int|
            0 <= k && k * frame_bytes(channels) + frame_bytes(channels) <= bytes@.len() && peaks.0
                == #[trigger] frame_sample(bytes@, frame_bytes(channels), 0, 0, k),
        channels >= 2 ==> (peaks.1 == 0 || exists|k: int|
            0 <= k && k * frame_bytes(channels) + frame_bytes(channels) <= bytes@.len() && peaks.1
                == #[trigger] frame_sample(bytes@, frame_bytes(channels), 2, 0, k)),
        channels == 1 ==> peaks.1 == peaks.0,
        channels >= 1 ==> frame_bytes(channels) == 2 * channels,
{
    proof {
        lemma_peaks_cover_every_frame(bytes@, channels);
    }

    let stride: usize = if channels == 0 { 2 } else { 2 * (channels as usize) };
    let mut left: u32 = 0;
    let mut right: u32 = 0;
    let mut pos: usize = 0;
    while stride <= bytes.len() - pos
        invariant
            stride == frame_bytes(channels),
            pos <= bytes@.len(),
            left <= 32768,
            right <= 32768,
            channels <= 1 ==> right == 0,
            (if left >= peak_from(bytes@, stride as int, 0, pos as int) {
                left as int
            } else {
                peak_from(bytes@, stride as int, 0, pos as int)
            }) == peak_from(bytes@, stride as int, 0, 0),
            channels > 1 ==> (if right >= peak_from(bytes@, stride as int, 2, pos as int) {
                right as int
            } else {
                peak_from(bytes@, stride as int, 2, pos as int)
            }) == peak_from(bytes@, stride as int, 2, 0),
        decreases bytes.len() - pos,
    {
        let l = magnitude_at(bytes, pos);
        if l > left {
            left = l;
        }
        if channels > 1 {
            let r = magnitude_at(bytes, pos + 2);
            if r > right {
                right = r;
            }
        }
        pos = pos + stride;
    }
    if channels == 1 {
        right = left;
    }
    (left, right)
}

/// Peak sample magnitudes of a captured burst: none when the capture holds
/// fewer than 4 bytes, else those of `decode_peak_samples`.
pub fn capture_peaks(bytes: &[u8], channels: u8) -> (peaks: Option<(u32, u32)>)
    ensures
        bytes@.len() < 4 <==> peaks is None,
        peaks matches Some(p) ==> p.0 == peak_magnitudes(bytes@, channels).0 && p.1
            == peak_magnitudes(bytes@, channels).1,
{
    if bytes.len() < 4 {
        None
    } else {
        Some(decode_peak_samples(bytes, channels))
    }
}

/// A discovered PipeWire node: its id, `node.name` and `node.description`.
#[derive(Clone, Debug)]
pub struct NodeEntry {
    pub id: u32,
    pub name: String,
    pub description: String,
}

/// The entry of a node from its id and the values of its `node.name` and
/// `node.description` properties, when present.
pub fn node_entry_from_props(id: u32, name: Option<&str>, description: Option<&str>) -> (node:
    NodeEntry)
    ensures
        node.id == id,
        node.name@ == (match name {
            Some(n) => n@,
            None => "<unnamed>"@,
        }),
        node.description@ == (match description {
            Some(d) => d@,
            None => Seq::<char>::empty(),
        }),
{
    let name = match name {
        Some(n) => n.to_owned(),
        None => "<unnamed>".to_owned(),
    };
    let description = match description {
        Some(d) => d.to_owned(),
        None => String::new(),
    };
    NodeEntry { id, name, description }
}

/// The listing line of a node: `id: name`, followed by ` (description)`
/// when the description is not empty.
pub open spec fn node_line_text(id: u32, name: Seq<char>, description: Seq<char>) -> Seq<char> {
    if description.len() == 0 {
        decimal(id as nat) + ": "@ + name
    } else {
        decimal(id as nat) + ": "@ + name + " ("@ + description + ")"@
    }
}

/// The line that lists `node`.
pub fn node_line(node: &NodeEntry) -> (line: String)
    ensures
        line@ == node_line_text(node.id, node.name@, node.description@),
{
    let mut line = decimal_string(node.id as u64);
    line.append(": ");
    line.append(node.name.as_str());
    if !node.description.as_str().is_empty() {
        line.append(" (");
        line.append(node.description.as_str());
        line.append(")");
    }
    line
}

} // verus!
