//! Cursors over fixed lists, as behind `IEnumPins` and `IEnumMediaTypes`.

use vstd::prelude::*;
use crate::codes::{Code, E_INVALIDARG, E_POINTER, S_FALSE, S_OK};
use crate::dshow::format::VideoType;

verus! {

/// A position in a list of `len` items.
#[derive(Clone, Copy, PartialEq, Eq, Debug, Structural)]
pub struct Cursor {
    pub pos: usize,
    pub len: usize,
}

/// What a `Next` call answers.
#[derive(Clone, Copy, PartialEq, Eq, Debug, Structural)]
pub struct Answer {
    pub code: Code,
    /// What to store behind `fetched`, if anything.
    pub fetched: Option<u32>,
}

impl Cursor {
    pub open spec fn wf(self) -> bool {
        self.pos <= self.len
    }

    pub open spec fn left(self) -> int {
        self.len - self.pos
    }

    pub fn new(len: usize) -> (c: Cursor)
        ensures
            c == (Cursor { pos: 0, len }),
            c.wf(),
    {
        Cursor { pos: 0, len }
    }

    /// How many items a `Next` call for `count` hands out: those from the position on, as far as
    /// they last; or why it is refused. `has_out` and `has_fetched` say whether the caller gave
    /// the respective place.
    pub fn begin(&self, has_out: bool, count: u32, has_fetched: bool) -> (r: Result<usize, Code>)
        requires
            self.wf(),
        ensures
            !has_out ==> r == Err::<usize, Code>(E_POINTER),
            has_out && count > 1 && !has_fetched ==> r == Err::<usize, Code>(E_INVALIDARG),
            has_out && !(count > 1 && !has_fetched) ==> (r matches Ok(n) && n == (if count
                < self.left() {
                count as int
            } else {
                self.left()
            })),
    {
        if !has_out {
            return Err(E_POINTER);
        }
        if count > 1 && !has_fetched {
            return Err(E_INVALIDARG);
        }
        let left: usize = self.len - self.pos;
        if (count as u64) < left as u64 {
            Ok(count as usize)
        } else {
            Ok(left)
        }
    }

    /// Ends a `Next` call for `count` that handed out `emitted` items, the last attempt ending in
    /// `failure` if it failed.
    pub fn finish(
        &mut self,
        emitted: usize,
        count: u32,
        has_fetched: bool,
        failure: Option<Code>,
    ) -> (r: Answer)
        requires
            old(self).wf(),
            emitted <= old(self).left(),
            emitted <= count,
        ensures
            final(self).wf(),
            final(self).pos == old(self).pos + emitted,
            final(self).len == old(self).len,
            match failure {
                Some(code) => r == (Answer { code, fetched: None }),
                None => {
                    &&& r.code == (if emitted == count {
                        S_OK
                    } else {
                        S_FALSE
                    })
                    &&& r.fetched == (if has_fetched {
                        Some(emitted as u32)
                    } else {
                        None
                    })
                },
            },
    {
        self.pos = self.pos + emitted;
        match failure {
            Some(code) => Answer { code, fetched: None },
            None => Answer {
                code: if emitted as u64 == count as u64 {
                    S_OK
                } else {
                    S_FALSE
                },
                fetched: if has_fetched {
                    Some(emitted as u32)
                } else {
                    None
                },
            },
        }
    }

    /// Moves on by `count` items, at most to the end; whether there were that many.
    pub fn skip(&mut self, count: u32) -> (r: Result<(), Code>)
        requires
            old(self).wf(),
        ensures
            final(self).wf(),
            final(self).len == old(self).len,
            count <= old(self).left() ==> r == Ok::<(), Code>(()) && final(self).pos == old(self).pos
                + count,
            count > old(self).left() ==> r == Err::<(), Code>(S_FALSE) && final(self).pos
                == final(self).len,
    {
        let left: usize = self.len - self.pos;
        if count as u64 <= left as u64 {
            self.pos = self.pos + count as usize;
            Ok(())
        } else {
            self.pos = self.len;
            Err(S_FALSE)
        }
    }

    pub fn reset(&mut self)
        ensures
            *final(self) == (Cursor { pos: 0, ..*old(self) }),
    {
        self.pos = 0;
    }
}

/// The cursor over the filter's single pin.
#[derive(Clone, Copy, PartialEq, Eq, Debug, Structural)]
pub struct EnumPins {
    pub cursor: Cursor,
}

impl EnumPins {
    pub fn new() -> (e: EnumPins)
        ensures
            e.cursor == (Cursor { pos: 0, len: 1 }),
    {
        EnumPins { cursor: Cursor::new(1) }
    }
}

/// The cursor over the offered types.
#[derive(Clone, PartialEq, Eq, Debug)]
pub struct EnumMediaTypes {
    pub types: Vec<VideoType>,
    pub cursor: Cursor,
}

impl EnumMediaTypes {
    pub open spec fn wf(self) -> bool {
        self.cursor.wf() && self.cursor.len == self.types@.len()
    }

    pub fn new(types: Vec<VideoType>) -> (e: EnumMediaTypes)
        ensures
            e.types == types,
            e.cursor.pos == 0,
            e.wf(),
    {
        let len: usize = types.len();
        EnumMediaTypes { types, cursor: Cursor::new(len) }
    }

    /// Hands out the next types. `room` is how many media types can be allocated for the caller;
    /// where that is not enough, nothing is handed out and `failure` is answered.
    pub fn next(
        &mut self,
        has_out: bool,
        count: u32,
        has_fetched: bool,
        room: usize,
        failure: Code,
    ) -> (r: (Answer, Vec<VideoType>))
        requires
            old(self).wf(),
        ensures
            final(self).wf(),
            final(self).types == old(self).types,
            ({
                let start = old(self).cursor.pos as int;
                let n = if count < old(self).cursor.left() {
                    count as int
                } else {
                    old(self).cursor.left()
                };
                if !has_out {
                    &&& r.0 == (Answer { code: E_POINTER, fetched: None })
                    &&& r.1@.len() == 0
                    &&& final(self).cursor == old(self).cursor
                } else if count > 1 && !has_fetched {
                    &&& r.0 == (Answer { code: E_INVALIDARG, fetched: None })
                    &&& r.1@.len() == 0
                    &&& final(self).cursor == old(self).cursor
                } else if room < n {
                    &&& r.0 == (Answer { code: failure, fetched: None })
                    &&& r.1@.len() == 0
                    &&& final(self).cursor.pos == start + room
                } else {
                    &&& r.0.code == (if n == count {
                        S_OK
                    } else {
                        S_FALSE
                    })
                    &&& r.0.fetched == (if has_fetched {
                        Some(n as u32)
                    } else {
                        None
                    })
                    &&& r.1@ == old(self).types@.subrange(start, start + n)
                    &&& final(self).cursor.pos == start + n
                }
            }),
    {
        let mut out: Vec<VideoType> = Vec::new();
        let n = match self.cursor.begin(has_out, count, has_fetched) {
            Ok(n) => n,
            Err(code) => {
                return (Answer { code, fetched: None }, out);
            },
        };
        if room < n {
            return (self.cursor.finish(room, count, has_fetched, Some(failure)), out);
        }
        let start: usize = self.cursor.pos;
        let total: usize = self.types.len();
        let mut i: usize = 0;
        while i < n
            invariant
                i <= n,
                start + n <= total,
                total == self.types@.len(),
                out@ == self.types@.subrange(start as int, start + i),
            decreases n - i,
        {
            out.push(self.types[start + i]);
            i += 1;
            assert(out@ =~= self.types@.subrange(start as int, start + i));
        }
        (self.cursor.finish(n, count, has_fetched, None), out)
    }
}

/// Two `Next` calls hand out what one call for both hands out.
pub proof fn law_next_adds_up(types: Seq<VideoType>, pos: int, a: int, b: int)
    requires
        0 <= pos,
        0 <= a,
        0 <= b,
        pos + a + b <= types.len(),
    ensures
        types.subrange(pos, pos + a) + types.subrange(pos + a, pos + a + b) == types.subrange(
            pos,
            pos + a + b,
        ),
{
    assert(types.subrange(pos, pos + a) + types.subrange(pos + a, pos + a + b) =~= types.subrange(
        pos,
        pos + a + b,
    ));
}

}
