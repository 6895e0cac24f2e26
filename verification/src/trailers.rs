//! Reading the status that a gRPC-Web server sends in its trailer frames.
use vstd::prelude::*;
use vstd::utf8::{decode_utf8, is_leading_byte_width_1, pop_first_scalar, valid_utf8, valid_utf8_concat};

use crate::encoding::{be32_bytes, frame_len_at, lemma_be32_roundtrip, read_frame_len};
use crate::error::{concat_str, error_text, Error, ErrorView};
use crate::outside::is_utf8;
use crate::text::{
    accumulate_digits, has_prefix, int_error_text, is_digit, IntErrorKind, leading_space_len, lemma_percent_plain,
    parse_u32_bytes, parse_u32_spec, percent_decode_checked, percent_decode_spec, starts_with_bytes,
    trailing_space_len, trim, trim_bytes, trim_end, trim_start,
};

verus! {

/// The bytes of the key that announces the status number.
pub open spec fn status_key() -> Seq<u8> {
    seq![103u8, 114, 112, 99, 45, 115, 116, 97, 116, 117, 115, 58]
}

/// The bytes of the key that announces the status message.
pub open spec fn message_key() -> Seq<u8> {
    seq![103u8, 114, 112, 99, 45, 109, 101, 115, 115, 97, 103, 101, 58]
}

/// The trailer text held by the frames from `pos` on: the payloads of the
/// complete frames that are UTF-8, one after the other. Reading stops at the
/// first header that is cut short or that announces more bytes than remain.
pub open spec fn trailer_text(data: Seq<u8>, pos: int) -> Seq<u8>
    decreases data.len() - pos,
{
    if pos < 0 || pos + 5 > data.len() {
        Seq::empty()
    } else if pos + 5 + frame_len_at(data, pos) > data.len() {
        Seq::empty()
    } else {
        let start = pos + 5;
        let end = start + frame_len_at(data, pos);
        let frame = data.subrange(start, end);
        (if valid_utf8(frame) {
            frame
        } else {
            Seq::empty()
        }) + trailer_text(data, end)
    }
}

pub open spec fn is_line_break(c: u8) -> bool {
    c == 10 || c == 13
}

/// The lines of `t`: the pieces between line feeds and carriage returns,
/// empty pieces included; there is always at least one.
pub open spec fn split_lines(t: Seq<u8>) -> Seq<Seq<u8>>
    decreases t.len(),
{
    if t.len() == 0 {
        seq![Seq::empty()]
    } else {
        let prev = split_lines(t.drop_last());
        if is_line_break(t.last()) {
            prev.push(Seq::empty())
        } else {
            prev.update(prev.len() - 1, prev.last().push(t.last()))
        }
    }
}

/// Where reading the trailer lines stands: still reading, with the status
/// number and message seen so far; stopped at an error; or aborted.
pub enum LineState {
    Reading { status: Option<u32>, message: Seq<char> },
    Failed(ErrorView),
    Aborted,
}

/// What one trailer line does: a `grpc-status:` line sets the status number,
/// a `grpc-message:` line sets the message (percent-decoded), others change nothing.
pub open spec fn line_step(status: Option<u32>, message: Seq<char>, line: Seq<u8>) -> LineState {
    let l = trim(line);
    if has_prefix(l, status_key()) {
        match parse_u32_spec(trim(l.skip(12))) {
            Ok(v) => LineState::Reading { status: Some(v), message },
            Err(k) => LineState::Failed(
                ErrorView::Decoding("Failed to parse status code: "@ + int_error_text(k)),
            ),
        }
    } else if has_prefix(l, message_key()) {
        match percent_decode_spec(trim(l.skip(13))) {
            None => LineState::Aborted,
            Some(Ok(m)) => LineState::Reading { status, message: m },
            Some(Err(e)) => LineState::Failed(
                ErrorView::Decoding("Failed to decode message: "@ + error_text(e)),
            ),
        }
    } else {
        LineState::Reading { status, message }
    }
}

/// The lines read in order; the first error or abort ends the reading.
pub open spec fn read_lines(lines: Seq<Seq<u8>>) -> LineState
    decreases lines.len(),
{
    if lines.len() == 0 {
        LineState::Reading { status: None, message: Seq::empty() }
    } else {
        match read_lines(lines.drop_last()) {
            LineState::Reading { status, message } => line_step(status, message, lines.last()),
            other => other,
        }
    }
}

/// The status number and message held by trailer frames, or the error that
/// reading them gives; `None` where reading aborts.
pub open spec fn trailers_spec(data: Seq<u8>) -> Option<Result<(u32, Seq<char>), ErrorView>> {
    match read_lines(split_lines(trailer_text(data, 0))) {
        LineState::Reading { status: Some(c), message } => Some(Ok((c, message))),
        LineState::Reading { status: None, .. } => Some(
            Err(ErrorView::Decoding("Missing grpc-status trailer"@)),
        ),
        LineState::Failed(e) => Some(Err(e)),
        LineState::Aborted => None,
    }
}

proof fn lemma_split_lines_nonempty(t: Seq<u8>)
    ensures
        split_lines(t).len() >= 1,
    decreases t.len(),
{
    if t.len() > 0 {
        lemma_split_lines_nonempty(t.drop_last());
    }
}

/// Collects the text of the trailer frames.
fn collect_trailer_text(data: &[u8]) -> (t: Vec<u8>)
    ensures
        t@ == trailer_text(data@, 0),
{
    let n = data.len();
    let mut pos: usize = 0;
    let mut text: Vec<u8> = Vec::new();
    while n - pos >= 5
        invariant
            pos <= n,
            n == data@.len(),
            trailer_text(data@, 0) == text@ + trailer_text(data@, pos as int),
        decreases n - pos,
    {
        let length = read_frame_len(data, pos) as usize;
        let start = pos + 5;
        if length > n - start {
            assert(trailer_text(data@, pos as int) == Seq::<u8>::empty());
            assert(text@ + Seq::<u8>::empty() =~= text@);
            return text;
        }
        let frame = &data[start..start + length];
        let ghost before = text@;
        if is_utf8(frame) {
            text.extend_from_slice(frame);
            assert(text@ =~= before + frame@);
        }
        proof {
            let piece = if valid_utf8(frame@) { frame@ } else { Seq::<u8>::empty() };
            assert(text@ =~= before + piece);
            assert(before + (piece + trailer_text(data@, (start + length) as int)) =~= text@
                + trailer_text(data@, (start + length) as int));
        }
        pos = start + length;
    }
    assert(trailer_text(data@, pos as int) == Seq::<u8>::empty());
    assert(text@ + Seq::<u8>::empty() =~= text@);
    text
}

pub(crate) fn status_key_bytes() -> (r: Vec<u8>)
    ensures
        r@ == status_key(),
{
    let r: Vec<u8> = vec![103u8, 114, 112, 99, 45, 115, 116, 97, 116, 117, 115, 58];
    assert(r@ =~= status_key());
    r
}

fn message_key_bytes() -> (r: Vec<u8>)
    ensures
        r@ == message_key(),
{
    let r: Vec<u8> = vec![103u8, 114, 112, 99, 45, 109, 101, 115, 115, 97, 103, 101, 58];
    assert(r@ =~= message_key());
    r
}

/// The executable counterpart of [`LineState`].
pub enum TrailerState {
    Reading(Option<u32>, String),
    Failed(Error),
    Aborted,
}

pub open spec fn trailer_state_view(s: TrailerState) -> LineState {
    match s {
        TrailerState::Reading(st, m) => LineState::Reading { status: st, message: m@ },
        TrailerState::Failed(e) => LineState::Failed(e@),
        TrailerState::Aborted => LineState::Aborted,
    }
}

/// Applies one trailer line to the status number and message seen so far.
pub fn step_line(status: Option<u32>, message: String, line: &[u8]) -> (r: TrailerState)
    ensures
        trailer_state_view(r) == line_step(status, message@, line@),
{
    let l = trim_bytes(line);
    let skey = status_key_bytes();
    let mkey = message_key_bytes();
    if starts_with_bytes(l, skey.as_slice()) {
        let rest = &l[12..l.len()];
        assert(rest@ =~= l@.skip(12));
        match parse_u32_bytes(trim_bytes(rest)) {
            Ok(v) => TrailerState::Reading(Some(v), message),
            Err(k) => TrailerState::Failed(
                Error::Decoding(concat_str("Failed to parse status code: ", k.text())),
            ),
        }
    } else if starts_with_bytes(l, mkey.as_slice()) {
        let rest = &l[13..l.len()];
        assert(rest@ =~= l@.skip(13));
        match percent_decode_checked(trim_bytes(rest)) {
            None => TrailerState::Aborted,
            Some(Ok(m)) => TrailerState::Reading(status, m),
            Some(Err(e)) => {
                let shown = e.to_string();
                TrailerState::Failed(
                    Error::Decoding(concat_str("Failed to decode message: ", shown.as_str())),
                )
            },
        }
    } else {
        TrailerState::Reading(status, message)
    }
}

proof fn lemma_read_lines_push(done: Seq<Seq<u8>>, line: Seq<u8>)
    ensures
        read_lines(done.push(line)) == match read_lines(done) {
            LineState::Reading { status, message } => line_step(status, message, line),
            other => other,
        },
{
    assert(done.push(line).drop_last() =~= done);
}

/// Reads the status number and message from trailer frames; `None` where a
/// `grpc-message` escape is followed by two bytes that are not UTF-8, which
/// aborts reading.
pub fn scan_trailers(data: &[u8]) -> (r: Option<Result<(u32, String), Error>>)
    ensures
        match r {
            None => trailers_spec(data@) is None,
            Some(Ok((c, m))) => trailers_spec(data@) == Some(Ok::<_, ErrorView>((c, m@))),
            Some(Err(e)) => trailers_spec(data@) == Some(Err::<(u32, Seq<char>), _>(e@)),
        },
{
    let text = collect_trailer_text(data);
    let t = text.as_slice();
    let n = t.len();
    let mut status: Option<u32> = None;
    let mut message = String::new();
    let mut line_start: usize = 0;
    let mut i: usize = 0;
    let ghost mut done: Seq<Seq<u8>> = Seq::empty();
    assert(t@.take(0) =~= Seq::<u8>::empty());
    assert(t@.subrange(0, 0) =~= Seq::<u8>::empty());
    assert(split_lines(t@.take(0)) =~= done.push(t@.subrange(0, 0)));
    while i < n
        invariant
            line_start <= i <= n,
            n == t@.len(),
            t@ == trailer_text(data@, 0),
            split_lines(t@.take(i as int)) == done.push(t@.subrange(line_start as int, i as int)),
            read_lines(done) == (LineState::Reading { status, message: message@ }),
        decreases n - i,
    {
        let ghost prev = split_lines(t@.take(i as int));
        assert(t@.take(i + 1).drop_last() =~= t@.take(i as int));
        assert(t@.take(i + 1).last() == t@[i as int]);
        if t[i] == 10 || t[i] == 13 {
            let line = &t[line_start..i];
            proof {
                lemma_read_lines_push(done, line@);
                assert(split_lines(t@.take(i + 1)) =~= done.push(line@).push(Seq::empty()));
                assert(split_lines(t@.take(i + 1)).drop_last() =~= done.push(line@));
            }
            let next = step_line(status, message, line);
            match next {
                TrailerState::Reading(s, m) => {
                    status = s;
                    message = m;
                },
                TrailerState::Failed(e) => {
                    proof {
                        lemma_trailers_end_failed(data@, done.push(line@), t@, e@);
                    }
                    return Some(Err(e));
                },
                TrailerState::Aborted => {
                    proof {
                        lemma_trailers_end_aborted(data@, done.push(line@), t@);
                    }
                    return None;
                },
            }
            proof {
                done = done.push(line@);
                assert(t@.subrange(i + 1, i + 1) =~= Seq::<u8>::empty());
                assert(split_lines(t@.take(i + 1)) =~= done.push(t@.subrange(i + 1, i + 1)));
            }
            line_start = i + 1;
        } else {
            assert(t@.subrange(line_start as int, i as int).push(t@[i as int]) =~= t@.subrange(
                line_start as int,
                i + 1,
            ));
            assert(prev.update(prev.len() - 1, prev.last().push(t@[i as int])) =~= done.push(
                t@.subrange(line_start as int, i + 1),
            ));
            assert(split_lines(t@.take(i + 1)) =~= done.push(t@.subrange(line_start as int, i + 1)));
        }
        i = i + 1;
    }
    assert(t@.take(n as int) =~= t@);
    let line = &t[line_start..n];
    proof {
        lemma_read_lines_push(done, line@);
    }
    let last = step_line(status, message, line);
    match last {
        TrailerState::Reading(Some(c), m) => Some(Ok((c, m))),
        TrailerState::Reading(None, _) => Some(
            Err(Error::Decoding(String::from_str("Missing grpc-status trailer"))),
        ),
        TrailerState::Failed(e) => Some(Err(e)),
        TrailerState::Aborted => None,
    }
}

/// Once a line fails, reading the later lines changes nothing.
proof fn lemma_read_lines_stops(lines: Seq<Seq<u8>>, k: int)
    requires
        0 <= k <= lines.len(),
        !(read_lines(lines.take(k)) is Reading),
    ensures
        read_lines(lines) == read_lines(lines.take(k)),
    decreases lines.len() - k,
{
    if k < lines.len() {
        assert(lines.take(k + 1).drop_last() =~= lines.take(k));
        lemma_read_lines_stops(lines, k + 1);
    } else {
        assert(lines.take(k) =~= lines);
    }
}

/// Every line that has been completed stays a line of every longer text.
proof fn lemma_split_lines_prefix(t: Seq<u8>, i: int)
    requires
        0 <= i <= t.len(),
    ensures
        split_lines(t.take(i)).len() >= 1,
        split_lines(t.take(i)).drop_last().len() <= split_lines(t).len() - 1,
        split_lines(t).take(split_lines(t.take(i)).len() - 1) == split_lines(t.take(i)).drop_last(),
    decreases t.len() - i,
{
    lemma_split_lines_nonempty(t.take(i));
    if i == t.len() {
        assert(t.take(i) =~= t);
        assert(split_lines(t).take(split_lines(t).len() - 1) =~= split_lines(t).drop_last());
    } else {
        lemma_split_lines_prefix(t, i + 1);
        let a = split_lines(t.take(i));
        let b = split_lines(t.take(i + 1));
        assert(t.take(i + 1).drop_last() =~= t.take(i));
        lemma_split_lines_nonempty(t.take(i));
        if is_line_break(t.take(i + 1).last()) {
            assert(b =~= a.push(Seq::empty()));
            assert(b.drop_last() =~= a);
            assert(split_lines(t).take(a.len() - 1) =~= split_lines(t).take(b.len() - 1).take(a.len() - 1));
            assert(a.drop_last() =~= b.drop_last().take(a.len() - 1));
        } else {
            assert(b.drop_last() =~= a.drop_last());
        }
    }
}

proof fn lemma_trailers_end_failed(data: Seq<u8>, done: Seq<Seq<u8>>, t: Seq<u8>, e: ErrorView)
    requires
        t == trailer_text(data, 0),
        read_lines(done) == LineState::Failed(e),
        exists|i: int| 0 <= i <= t.len() && #[trigger] split_lines(t.take(i)).drop_last() == done,
    ensures
        trailers_spec(data) == Some(Err::<(u32, Seq<char>), _>(e)),
{
    let i = choose|i: int| 0 <= i <= t.len() && #[trigger] split_lines(t.take(i)).drop_last() == done;
    lemma_split_lines_prefix(t, i);
    lemma_read_lines_stops(split_lines(t), done.len() as int);
}

proof fn lemma_trailers_end_aborted(data: Seq<u8>, done: Seq<Seq<u8>>, t: Seq<u8>)
    requires
        t == trailer_text(data, 0),
        read_lines(done) == LineState::Aborted,
        exists|i: int| 0 <= i <= t.len() && #[trigger] split_lines(t.take(i)).drop_last() == done,
    ensures
        trailers_spec(data) is None,
{
    let i = choose|i: int| 0 <= i <= t.len() && #[trigger] split_lines(t.take(i)).drop_last() == done;
    lemma_split_lines_prefix(t, i);
    lemma_read_lines_stops(split_lines(t), done.len() as int);
}

/// Reads the status number and message from gRPC-Web trailer frames.
///
/// The payloads of the complete frames that are UTF-8 are joined into one text
/// and split into lines at line feeds and carriage returns. In each trimmed
/// line, `grpc-status:` sets the status number and `grpc-message:` sets the
/// percent-decoded message; the last of each wins, and the first line that
/// cannot be read ends the reading with its error.
pub fn parse_grpc_web_trailers(data: &[u8]) -> (r: Result<(u32, String), Error>)
    requires
        trailers_spec(data@) is Some,
    ensures
        match r {
            Ok((c, m)) => trailers_spec(data@) == Some(Ok::<_, ErrorView>((c, m@))),
            Err(e) => trailers_spec(data@) == Some(Err::<(u32, Seq<char>), _>(e@)),
        },
{
    match scan_trailers(data) {
        Some(r) => r,
        None => {
            assert(false);
            Err(Error::decoding("Missing grpc-status trailer"))
        },
    }
}

/// The decimal digits of `n`, as bytes, without sign or leading zeros.
pub open spec fn decimal_bytes(n: nat) -> Seq<u8>
    decreases n,
{
    if n < 10 {
        seq![(n + 48) as u8]
    } else {
        decimal_bytes(n / 10).push((n % 10 + 48) as u8)
    }
}

/// The trailer text that reports status number `s` with message bytes `g`: a
/// `grpc-status:` line and a `grpc-message:` line, each ended by CR LF.
pub open spec fn status_trailer_text(s: u32, g: Seq<u8>) -> Seq<u8> {
    status_key() + decimal_bytes(s as nat) + seq![13u8, 10] + message_key() + g + seq![13u8, 10]
}

/// The frame that carries trailer text `t`: flag 0x80, the length of `t` in
/// 32 bits, then `t`.
pub open spec fn trailer_frame(t: Seq<u8>) -> Seq<u8> {
    seq![128u8] + be32_bytes(t.len() as u32) + t
}

/// A status message that a trailer line carries as it is: UTF-8, free of `%`,
/// CR and LF, and neither beginning nor ending with white space.
pub open spec fn is_plain_message(g: Seq<u8>) -> bool {
    &&& valid_utf8(g)
    &&& forall|i: int| 0 <= i < g.len() ==> #[trigger] g[i] != 37 && !is_line_break(g[i])
    &&& leading_space_len(g) == 0
    &&& trailing_space_len(g) == 0
}

/// Every byte of `b` is ASCII.
pub open spec fn is_ascii_bytes(b: Seq<u8>) -> bool {
    forall|i: int| 0 <= i < b.len() ==> #[trigger] b[i] < 128
}

proof fn lemma_ascii_valid_utf8(b: Seq<u8>)
    requires
        is_ascii_bytes(b),
    ensures
        valid_utf8(b),
    decreases b.len(),
{
    if b.len() > 0 {
        let b0 = b[0];
        assert(b0 < 128);
        assert(is_leading_byte_width_1(b0));
        assert((b0 & 0x7F) <= 0x7F) by (bit_vector);
        let rest = pop_first_scalar(b);
        assert(rest =~= b.subrange(1, b.len() as int));
        assert forall|i: int| 0 <= i < rest.len() implies #[trigger] rest[i] < 128 by {
            assert(rest[i] == b[i + 1]);
        }
        lemma_ascii_valid_utf8(rest);
    }
}

proof fn lemma_decimal_bytes_digits(n: nat)
    ensures
        decimal_bytes(n).len() >= 1,
        decimal_bytes(n).len() <= n + 1,
        forall|i: int| 0 <= i < decimal_bytes(n).len() ==> is_digit(#[trigger] decimal_bytes(n)[i]),
    decreases n,
{
    if n >= 10 {
        lemma_decimal_bytes_digits(n / 10);
    }
}

proof fn lemma_accumulate_concat(x: Seq<u8>, y: Seq<u8>, acc: u32)
    ensures
        accumulate_digits(x + y, acc) == match accumulate_digits(x, acc) {
            Ok(a) => accumulate_digits(y, a),
            Err(e) => Err(e),
        },
    decreases x.len(),
{
    if x.len() == 0 {
        assert(x + y =~= y);
    } else {
        assert((x + y)[0] == x[0]);
        assert((x + y).skip(1) =~= x.skip(1) + y);
        if is_digit(x[0]) && acc * 10 + (x[0] - 48) <= u32::MAX {
            lemma_accumulate_concat(x.skip(1), y, (acc * 10 + (x[0] - 48)) as u32);
        }
    }
}

proof fn lemma_accumulate_decimal(n: nat)
    requires
        n <= u32::MAX,
    ensures
        accumulate_digits(decimal_bytes(n), 0) == Ok::<u32, IntErrorKind>(n as u32),
    decreases n,
{
    if n < 10 {
        let d = decimal_bytes(n);
        assert(d[0] == (n + 48) as u8);
        assert(d.skip(1) =~= Seq::<u8>::empty());
        assert(accumulate_digits(d.skip(1), n as u32) == Ok::<u32, IntErrorKind>(n as u32));
    } else {
        let q = n / 10;
        let c = (n % 10 + 48) as u8;
        lemma_accumulate_decimal(q);
        assert(decimal_bytes(n) =~= decimal_bytes(q) + seq![c]);
        lemma_accumulate_concat(decimal_bytes(q), seq![c], 0);
        assert(seq![c].skip(1) =~= Seq::<u8>::empty());
        assert(q * 10 + (n % 10) == n);
        assert(q <= u32::MAX);
        assert(c - 48 == n % 10);
        assert(accumulate_digits(seq![c].skip(1), n as u32) == Ok::<u32, IntErrorKind>(n as u32));
        assert(accumulate_digits(seq![c], q as u32) == Ok::<u32, IntErrorKind>(n as u32));
    }
}

proof fn lemma_split_lines_plain(x: Seq<u8>)
    requires
        forall|i: int| 0 <= i < x.len() ==> !is_line_break(#[trigger] x[i]),
    ensures
        split_lines(x) == seq![x],
    decreases x.len(),
{
    if x.len() > 0 {
        let d = x.drop_last();
        assert forall|i: int| 0 <= i < d.len() implies !is_line_break(#[trigger] d[i]) by {
            assert(d[i] == x[i]);
        }
        lemma_split_lines_plain(d);
        assert(!is_line_break(x[x.len() - 1]));
        assert(d.push(x.last()) =~= x);
        assert(seq![d].update(0, d.push(x.last())) =~= seq![x]);
    } else {
        assert(x =~= Seq::<u8>::empty());
    }
}

proof fn lemma_split_lines_break(x: Seq<u8>, c: u8, y: Seq<u8>)
    requires
        is_line_break(c),
    ensures
        split_lines(x + seq![c] + y) == split_lines(x) + split_lines(y),
    decreases y.len(),
{
    let z = x + seq![c] + y;
    if y.len() == 0 {
        assert(z.drop_last() =~= x);
        assert(z.last() == c);
        assert(split_lines(x).push(Seq::empty()) =~= split_lines(x) + seq![Seq::<u8>::empty()]);
    } else {
        let yd = y.drop_last();
        lemma_split_lines_break(x, c, yd);
        assert(z.drop_last() =~= x + seq![c] + yd);
        assert(z.last() == y.last());
        let p = split_lines(x);
        let q = split_lines(yd);
        lemma_split_lines_nonempty(yd);
        if is_line_break(y.last()) {
            assert((p + q).push(Seq::empty()) =~= p + q.push(Seq::empty()));
        } else {
            assert((p + q).last() == q.last());
            assert((p + q).update((p + q).len() - 1, q.last().push(y.last())) =~= p + q.update(
                q.len() - 1,
                q.last().push(y.last()),
            ));
        }
    }
}

proof fn lemma_trim_fixed(b: Seq<u8>)
    requires
        leading_space_len(b) == 0,
        trailing_space_len(b) == 0,
    ensures
        trim(b) == b,
{
    assert(trim_start(b) == b);
    assert(trim_end(b) == b);
}

proof fn lemma_empty_line(ls: Seq<Seq<u8>>)
    ensures
        read_lines(ls.push(Seq::empty())) == read_lines(ls),
{
    let e = Seq::<u8>::empty();
    assert(ls.push(e).drop_last() =~= ls);
    assert(leading_space_len(e) == 0 && trailing_space_len(e) == 0);
    lemma_trim_fixed(e);
    assert(!has_prefix(e, status_key()));
    assert(!has_prefix(e, message_key()));
}

/// The trailer text that reports message bytes `g` before status number `s`:
/// a `grpc-message:` line and a `grpc-status:` line, each ended by CR LF.
pub open spec fn message_first_trailer_text(s: u32, g: Seq<u8>) -> Seq<u8> {
    message_key() + g + seq![13u8, 10] + status_key() + decimal_bytes(s as nat) + seq![13u8, 10]
}

proof fn lemma_frame_text(t: Seq<u8>)
    requires
        valid_utf8(t),
        t.len() <= u32::MAX,
    ensures
        trailer_text(trailer_frame(t), 0) == t,
{
    let f = trailer_frame(t);
    lemma_be32_roundtrip(t.len() as u32);
    assert(frame_len_at(f, 0) == t.len());
    assert(f.subrange(5, 5 + t.len() as int) =~= t);
    assert(trailer_text(f, 5 + t.len() as int) == Seq::<u8>::empty());
    assert(trailer_text(f, 0) =~= t);
}

/// The `grpc-status:` line of number `s` is ASCII and holds no line break.
proof fn lemma_status_line_bytes(s: u32)
    ensures
        is_ascii_bytes(status_key() + decimal_bytes(s as nat)),
        forall|i: int|
            0 <= i < (status_key() + decimal_bytes(s as nat)).len() ==> !is_line_break(
                #[trigger] (status_key() + decimal_bytes(s as nat))[i],
            ),
        valid_utf8(status_key() + decimal_bytes(s as nat)),
{
    let d = decimal_bytes(s as nat);
    let l1 = status_key() + d;
    lemma_decimal_bytes_digits(s as nat);
    assert forall|i: int| 0 <= i < l1.len() implies #[trigger] l1[i] < 128 && !is_line_break(l1[i]) by {
        if 12 <= i {
            assert(l1[i] == d[i - 12]);
            assert(is_digit(d[i - 12]));
        }
    }
    lemma_ascii_valid_utf8(l1);
}

/// The `grpc-message:` line of a plain message is UTF-8 and holds no line break.
proof fn lemma_message_line_bytes(g: Seq<u8>)
    requires
        is_plain_message(g),
    ensures
        forall|i: int|
            0 <= i < (message_key() + g).len() ==> !is_line_break(#[trigger] (message_key() + g)[i]),
        valid_utf8(message_key() + g),
{
    let l2 = message_key() + g;
    assert forall|i: int| 0 <= i < l2.len() implies !is_line_break(#[trigger] l2[i]) by {
        if 13 <= i {
            assert(l2[i] == g[i - 13]);
        }
    }
    lemma_ascii_valid_utf8(message_key());
    valid_utf8_concat(message_key(), g);
}

/// Two lines, each ended by CR LF.
proof fn lemma_two_lines(a: Seq<u8>, b: Seq<u8>)
    requires
        forall|i: int| 0 <= i < a.len() ==> !is_line_break(#[trigger] a[i]),
        forall|i: int| 0 <= i < b.len() ==> !is_line_break(#[trigger] b[i]),
    ensures
        split_lines(a + seq![13u8, 10] + b + seq![13u8, 10]) == seq![
            a,
            Seq::<u8>::empty(),
            b,
            Seq::<u8>::empty(),
            Seq::<u8>::empty(),
        ],
{
    let e = Seq::<u8>::empty();
    let t = a + seq![13u8, 10] + b + seq![13u8, 10];
    lemma_split_lines_plain(a);
    lemma_split_lines_plain(b);
    let y2 = b + seq![13u8] + (e + seq![10u8] + e);
    let y1 = e + seq![10u8] + y2;
    assert(t =~= a + seq![13u8] + y1);
    lemma_split_lines_break(a, 13u8, y1);
    lemma_split_lines_break(e, 10u8, y2);
    lemma_split_lines_break(b, 13u8, e + seq![10u8] + e);
    lemma_split_lines_break(e, 10u8, e);
    assert(split_lines(e) == seq![e]);
    assert(split_lines(t) =~= seq![a, e, b, e, e]);
}

/// Reading two lines separated and followed by empty lines.
proof fn lemma_two_lines_read(a: Seq<u8>, b: Seq<u8>)
    ensures
        read_lines(seq![a, Seq::<u8>::empty(), b, Seq::<u8>::empty(), Seq::<u8>::empty()])
            == match line_step(None, Seq::empty(), a) {
            LineState::Reading { status, message } => line_step(status, message, b),
            other => other,
        },
{
    let e = Seq::<u8>::empty();
    assert(seq![a, e, b, e, e] =~= seq![a, e, b].push(e).push(e));
    lemma_empty_line(seq![a, e, b].push(e));
    lemma_empty_line(seq![a, e, b]);
    assert(seq![a, e, b].drop_last() =~= seq![a].push(e));
    assert(seq![a, e, b].last() == b);
    lemma_empty_line(seq![a]);
    assert(seq![a].drop_last() =~= Seq::<Seq<u8>>::empty());
    assert(read_lines(Seq::<Seq<u8>>::empty()) == LineState::Reading { status: None, message: Seq::empty() });
    assert(seq![a].last() == a);
}

/// Law: a `grpc-status:` line with number `s` sets the status number to `s`
/// and leaves the status and message read so far otherwise as they were: the
/// message read from an earlier `grpc-message:` line is kept.
pub proof fn lemma_status_line(status: Option<u32>, message: Seq<char>, s: u32)
    ensures
        line_step(status, message, status_key() + decimal_bytes(s as nat)) == (LineState::Reading {
            status: Some(s),
            message,
        }),
{
    let d = decimal_bytes(s as nat);
    let l1 = status_key() + d;
    lemma_decimal_bytes_digits(s as nat);
    assert(leading_space_len(l1) == 0);
    assert(is_digit(d[d.len() - 1]));
    assert(l1[l1.len() - 1] == d[d.len() - 1]);
    assert(l1[l1.len() - 2] < 128) by {
        if d.len() >= 2 {
            assert(l1[l1.len() - 2] == d[d.len() - 2]);
            assert(is_digit(d[d.len() - 2]));
        }
    }
    assert(l1[l1.len() - 3] < 128) by {
        if d.len() >= 3 {
            assert(l1[l1.len() - 3] == d[d.len() - 3]);
            assert(is_digit(d[d.len() - 3]));
        }
    }
    assert(trailing_space_len(l1) == 0);
    lemma_trim_fixed(l1);
    assert(l1.take(12) =~= status_key());
    assert(l1.skip(12) =~= d);
    assert(leading_space_len(d) == 0);
    assert(trailing_space_len(d) == 0) by {
        if d.len() >= 2 {
            assert(is_digit(d[d.len() - 2]));
        }
        if d.len() >= 3 {
            assert(is_digit(d[d.len() - 3]));
        }
    }
    lemma_trim_fixed(d);
    lemma_accumulate_decimal(s as nat);
    assert(parse_u32_spec(d) == Ok::<u32, IntErrorKind>(s));
}

/// Law: a `grpc-message:` line with a plain message `g` sets the message to
/// the text of `g` and keeps the status number read so far.
pub proof fn lemma_message_line(status: Option<u32>, message: Seq<char>, g: Seq<u8>)
    requires
        is_plain_message(g),
    ensures
        line_step(status, message, message_key() + g) == (LineState::Reading {
            status,
            message: decode_utf8(g),
        }),
{
    let l2 = message_key() + g;
    assert(leading_space_len(l2) == 0);
    assert(trailing_space_len(l2) == 0) by {
        let n = l2.len() as int;
        if g.len() >= 3 {
            assert(l2[n - 1] == g[g.len() - 1]);
            assert(l2[n - 2] == g[g.len() - 2]);
            assert(l2[n - 3] == g[g.len() - 3]);
        } else if g.len() == 2 {
            assert(l2[n - 1] == g[1]);
            assert(l2[n - 2] == g[0]);
            assert(l2[n - 3] == 58);
        } else if g.len() == 1 {
            assert(l2[n - 1] == g[0]);
            assert(l2[n - 2] == 58);
            assert(l2[n - 3] == 101);
        } else {
            assert(l2[n - 1] == 58);
        }
    }
    lemma_trim_fixed(l2);
    assert(l2.take(12)[5] != status_key()[5]);
    assert(!has_prefix(l2, status_key()));
    assert(l2.take(13) =~= message_key());
    assert(l2.skip(13) =~= g);
    lemma_trim_fixed(g);
    lemma_percent_plain(g);
}

/// Law: a trailer frame that holds a `grpc-status:` line with status number
/// `s` and a `grpc-message:` line with a plain message `g` reads as that
/// status number and that message.
pub proof fn lemma_status_trailer(s: u32, g: Seq<u8>)
    requires
        is_plain_message(g),
        status_trailer_text(s, g).len() <= u32::MAX,
    ensures
        trailers_spec(trailer_frame(status_trailer_text(s, g))) == Some(
            Ok::<_, ErrorView>((s, decode_utf8(g))),
        ),
{
    let l1 = status_key() + decimal_bytes(s as nat);
    let l2 = message_key() + g;
    let crlf = seq![13u8, 10];
    let t = status_trailer_text(s, g);
    lemma_status_line_bytes(s);
    lemma_message_line_bytes(g);
    lemma_ascii_valid_utf8(crlf);
    valid_utf8_concat(l1, crlf);
    valid_utf8_concat(l1 + crlf, l2);
    valid_utf8_concat(l1 + crlf + l2, crlf);
    assert(t =~= l1 + crlf + l2 + crlf);
    lemma_frame_text(t);
    lemma_two_lines(l1, l2);
    lemma_two_lines_read(l1, l2);
    lemma_status_line(None, Seq::empty(), s);
    lemma_message_line(Some(s), Seq::empty(), g);
}

/// Law: the order of the two lines does not matter: a trailer frame that holds
/// the `grpc-message:` line before the `grpc-status:` line reads as the same
/// status number and message.
pub proof fn lemma_message_first_trailer(s: u32, g: Seq<u8>)
    requires
        is_plain_message(g),
        message_first_trailer_text(s, g).len() <= u32::MAX,
    ensures
        trailers_spec(trailer_frame(message_first_trailer_text(s, g))) == Some(
            Ok::<_, ErrorView>((s, decode_utf8(g))),
        ),
{
    let l1 = status_key() + decimal_bytes(s as nat);
    let l2 = message_key() + g;
    let crlf = seq![13u8, 10];
    let t = message_first_trailer_text(s, g);
    lemma_status_line_bytes(s);
    lemma_message_line_bytes(g);
    lemma_ascii_valid_utf8(crlf);
    valid_utf8_concat(l2, crlf);
    valid_utf8_concat(l2 + crlf, l1);
    valid_utf8_concat(l2 + crlf + l1, crlf);
    assert(t =~= l2 + crlf + l1 + crlf);
    lemma_frame_text(t);
    lemma_two_lines(l2, l1);
    lemma_two_lines_read(l2, l1);
    lemma_message_line(None, Seq::empty(), g);
    lemma_status_line(None, decode_utf8(g), s);
}

} // verus!
