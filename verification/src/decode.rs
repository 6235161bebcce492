//! Decoding of a path file: a cursor byte, then point records to the end.

use crate::byte_buffer::ByteBuffer;
use crate::direction::{dir_index, is_single_dir, is_single_direction, lemma_single_dir_index};
use crate::path::{Cursor, Path, Point};
use crate::varint::{parse_varint, StreamError};
use vstd::prelude::*;

verus! {

/// Why a path file could not be decoded.
#[derive(Debug, Copy, Clone, Eq, PartialEq, Structural)]
pub enum DecodeError {
    /// The bytes do not follow the layout of a path file.
    Malformed(StreamError),
    /// The first byte does not have exactly one bit set.
    InvalidCursorByte,
}

/// The point record at the start of `s` and the number of bytes that it
/// takes: two coordinates and a byte of directions.
pub open spec fn parse_point(s: Seq<u8>) -> Result<(Point, int), StreamError> {
    match parse_varint(s) {
        Err(e) => Err(e),
        Ok((x, x_len)) => match parse_varint(s.skip(x_len)) {
            Err(e) => Err(e),
            Ok((y, y_len)) => if s.len() <= x_len + y_len {
                Err(StreamError::UnexpectedEndOfStream)
            } else {
                Ok((Point { x: x as i64, y: y as i64, dirs: s[x_len + y_len] }, x_len + y_len + 1))
            },
        },
    }
}

/// `rest` with the points `done` in front of it; an error stays as it is.
pub open spec fn prepend(done: Seq<Point>, rest: Result<Seq<Point>, StreamError>) -> Result<
    Seq<Point>,
    StreamError,
> {
    match rest {
        Ok(points) => Ok(done + points),
        Err(e) => Err(e),
    }
}

/// The point records that fill `s` from its first byte to its last, or the
/// first error met on the way.
pub open spec fn parse_points(s: Seq<u8>) -> Result<Seq<Point>, StreamError>
    decreases s.len(),
{
    if s.len() == 0 {
        Ok(Seq::empty())
    } else {
        match parse_point(s) {
            Err(e) => Err(e),
            Ok((p, len)) => if 0 < len <= s.len() {
                prepend(seq![p], parse_points(s.skip(len)))
            } else {
                Err(StreamError::UnexpectedEndOfStream)
            },
        }
    }
}

/// The heading and the points that the path file `s` holds.
pub open spec fn parse_path(s: Seq<u8>) -> Result<(int, Seq<Point>), DecodeError> {
    if s.len() == 0 {
        Err(DecodeError::Malformed(StreamError::UnexpectedEndOfStream))
    } else if !is_single_dir(s[0]) {
        Err(DecodeError::InvalidCursorByte)
    } else {
        match parse_points(s.skip(1)) {
            Err(e) => Err(DecodeError::Malformed(e)),
            Ok(points) => Ok((dir_index(s[0]), points)),
        }
    }
}

/// The cursor at the start of a walk: at the first point, or at the origin
/// of a path without points, and facing `heading`.
pub open spec fn start_cursor(heading: int, points: Seq<Point>) -> Cursor {
    if points.len() == 0 {
        Cursor { x: 0, y: 0, dir: heading as u32 }
    } else {
        Cursor { x: points[0].x, y: points[0].y, dir: heading as u32 }
    }
}

/// Reads point records from the unread bytes of `bytes` to their end.
///
/// On success every byte has been read.
pub fn read_points(bytes: &mut ByteBuffer) -> (out: Result<Vec<Point>, StreamError>)
    ensures
        final(bytes).bytes() == old(bytes).bytes(),
        match parse_points(old(bytes).remaining()) {
            Ok(points) => {
                &&& out is Ok
                &&& out->Ok_0@ == points
                &&& final(bytes).position() == old(bytes).bytes().len()
            },
            Err(e) => out == Err::<Vec<Point>, StreamError>(e),
        },
{
    let ghost all = bytes.bytes();
    let ghost body = bytes.remaining();
    let mut points: Vec<Point> = Vec::new();
    assert(points@ + parse_points(body)->Ok_0 == parse_points(body)->Ok_0);
    while !bytes.is_empty()
        invariant
            bytes.bytes() == all,
            old(bytes).bytes() == all,
            body == old(bytes).remaining(),
            parse_points(body) == prepend(points@, parse_points(bytes.remaining())),
        decreases all.len() - bytes.position(),
    {
        let ghost rest = bytes.remaining();
        let ghost at = bytes.position() as int;
        let x = match bytes.read_compound_int() {
            Ok(v) => v,
            Err(e) => {
                return Err(e);
            },
        };
        let ghost x_len = bytes.position() - at;
        assert(bytes.remaining() == rest.skip(x_len));
        let y = match bytes.read_compound_int() {
            Ok(v) => v,
            Err(e) => {
                return Err(e);
            },
        };
        let ghost y_len = bytes.position() - at - x_len;
        let dirs = match bytes.next() {
            Some(b) => b,
            None => {
                return Err(StreamError::UnexpectedEndOfStream);
            },
        };
        let p = Point { x, y, dirs };
        proof {
            assert(rest[x_len + y_len] == dirs);
            assert(parse_point(rest) == Ok::<(Point, int), StreamError>((p, x_len + y_len + 1)));
            assert(bytes.remaining() == rest.skip(x_len + y_len + 1));
            let tail = parse_points(bytes.remaining());
            if tail is Ok {
                assert(points@ + (seq![p] + tail->Ok_0) == points@.push(p) + tail->Ok_0);
            }
        }
        points.push(p);
    }
    assert(points@ + Seq::<Point>::empty() == points@);
    Ok(points)
}

/// Decodes a path file from the unread bytes of `bytes`.
///
/// The first byte gives the heading by its single set bit. The walk starts
/// at the first point of the file, or at the origin when the file holds no
/// point. On success every byte has been read.
pub fn create_program(bytes: &mut ByteBuffer) -> (out: Result<Path, DecodeError>)
    ensures
        final(bytes).bytes() == old(bytes).bytes(),
        match parse_path(old(bytes).remaining()) {
            Ok((heading, points)) => {
                &&& out is Ok
                &&& out->Ok_0.points@ == points
                &&& out->Ok_0.cursor == start_cursor(heading, points)
                &&& out->Ok_0.cursor.wf()
                &&& final(bytes).position() == old(bytes).bytes().len()
            },
            Err(e) => out == Err::<Path, DecodeError>(e),
        },
{
    let ghost all = bytes.bytes();
    let ghost start = bytes.position() as int;
    let cursor_byte = match bytes.next() {
        Some(b) => b,
        None => {
            return Err(DecodeError::Malformed(StreamError::UnexpectedEndOfStream));
        },
    };
    assert(all.skip(start)[0] == cursor_byte);
    if !is_single_direction(cursor_byte) {
        return Err(DecodeError::InvalidCursorByte);
    }
    assert(bytes.remaining() == all.skip(start).skip(1));
    let points = match read_points(bytes) {
        Ok(points) => points,
        Err(e) => {
            return Err(DecodeError::Malformed(e));
        },
    };
    proof {
        lemma_single_dir_index(cursor_byte);
    }
    let dir = cursor_byte.trailing_zeros();
    let cursor = if points.len() == 0 {
        Cursor { x: 0, y: 0, dir }
    } else {
        Cursor { x: points[0].x, y: points[0].y, dir }
    };
    Ok(Path { points, cursor })
}

} // verus!
