//! The cursor query with which a Windows pseudoconsole starts belongs to the
//! daemon, not to an attachment.
use vstd::prelude::*;

verus! {

/// How much output may come before the query.
pub const MAX_STARTUP_BYTES: usize = 65_536;

/// The query: `ESC [ 6 n`.
pub open spec fn cursor_query() -> Seq<u8> {
    seq![0x1b, 0x5b, 0x36, 0x6e]
}

/// Whether the query stands at a position.
pub open spec fn query_at(bytes: Seq<u8>, i: int) -> bool {
    0 <= i && i + 4 <= bytes.len() && bytes.subrange(i, i + 4) == cursor_query()
}

/// Whether a position is the first at which the query stands.
pub open spec fn first_query_at(bytes: Seq<u8>, i: int) -> bool {
    query_at(bytes, i) && forall|j: int| 0 <= j < i ==> !#[trigger] query_at(bytes, j)
}

/// Whether the query stands nowhere.
pub open spec fn no_query(bytes: Seq<u8>) -> bool {
    forall|j: int| !#[trigger] query_at(bytes, j)
}

/// Why a pseudoconsole could not start.
#[derive(Debug, Clone, Copy, PartialEq, Eq, Structural)]
pub enum StartupError {
    TooMuchOutput,
}

impl StartupError {
    /// The error in words.
    pub fn message(&self) -> (message: &'static str)
        ensures
            message@ == "ConPTY startup output exceeded its bound"@,
    {
        "ConPTY startup output exceeded its bound"
    }
}

/// The output of a pseudoconsole before its cursor query.
pub struct StartupOutput {
    bytes: Vec<u8>,
}

impl Default for StartupOutput {
    fn default() -> (startup: Self)
        ensures
            startup.held() == Seq::<u8>::empty(),
    {
        let startup = StartupOutput { bytes: Vec::new() };
        assert(startup.held() =~= Seq::empty());
        startup
    }
}

impl StartupOutput {
    /// What came so far.
    pub closed spec fn held(&self) -> Seq<u8> {
        self.bytes@
    }

    /// Takes in output. Once the query is there, hands out everything around
    /// it and starts anew.
    pub fn push(&mut self, bytes: &[u8]) -> (result: Result<Option<Vec<u8>>, StartupError>)
        ensures
            ({
                let all = old(self).held() + bytes@;
                match result {
                    Err(error) => {
                        &&& error == StartupError::TooMuchOutput
                        &&& all.len() > MAX_STARTUP_BYTES
                        &&& final(self).held() == old(self).held()
                    },
                    Ok(None) => {
                        &&& all.len() <= MAX_STARTUP_BYTES
                        &&& no_query(all)
                        &&& final(self).held() == all
                    },
                    Ok(Some(output)) => {
                        &&& all.len() <= MAX_STARTUP_BYTES
                        &&& exists|i: int|
                            #[trigger] first_query_at(all, i) && output@ == all.take(i) + all.skip(
                                i + 4,
                            )
                        &&& final(self).held() == Seq::<u8>::empty()
                    },
                }
            }),
    {
        let ghost all = self.bytes@ + bytes@;
        if self.bytes.len() > MAX_STARTUP_BYTES || bytes.len() > MAX_STARTUP_BYTES
            - self.bytes.len() {
            return Err(StartupError::TooMuchOutput);
        }
        self.bytes.extend_from_slice(bytes);
        assert(self.bytes@ =~= all);
        let mut index: usize = 0;
        while index + 4 <= self.bytes.len()
            invariant
                self.bytes@ == all,
                all == old(self).held() + bytes@,
                all.len() <= MAX_STARTUP_BYTES,
                index <= all.len(),
                forall|j: int| 0 <= j < index ==> !#[trigger] query_at(all, j),
            decreases all.len() - index,
        {
            let ghost window = all.subrange(index as int, index + 4);
            if self.bytes[index] == 0x1b && self.bytes[index + 1] == 0x5b && self.bytes[index + 2]
                == 0x36 && self.bytes[index + 3] == 0x6e {
                assert(window =~= cursor_query());
                assert(first_query_at(all, index as int));
                let mut tail = self.bytes.split_off(index);
                let mut rest = tail.split_off(4);
                self.bytes.append(&mut rest);
                let mut output: Vec<u8> = Vec::new();
                std::mem::swap(&mut output, &mut self.bytes);
                assert(output@ =~= all.take(index as int) + all.skip(index + 4));
                assert(self.held() =~= Seq::empty());
                return Ok(Some(output));
            }
            proof {
                if window == cursor_query() {
                    assert(window[0] == all[index as int]);
                    assert(window[1] == all[index + 1]);
                    assert(window[2] == all[index + 2]);
                    assert(window[3] == all[index + 3]);
                }
            }
            index += 1;
        }
        Ok(None)
    }
}

/// How the output is cut into pieces does not matter. As long as no query came,
/// pushing two pieces is like pushing both at once; and where the query came with
/// the first piece, what is let through then, followed by the second piece, is
/// what both at once would have let through.
pub proof fn startup_is_independent_of_chunking(held: Seq<u8>, a: Seq<u8>, b: Seq<u8>)
    ensures
        (held + a) + b == held + (a + b),
        no_query(held + (a + b)) ==> no_query(held + a),
        forall|i: int| #[trigger]
            first_query_at(held + a, i) ==> {
                let all = held + (a + b);
                &&& first_query_at(all, i)
                &&& all.take(i) + all.skip(i + 4) == (held + a).take(i) + (held + a).skip(i + 4)
                    + b
            },
{
    assert((held + a) + b =~= held + (a + b));
    assert forall|i: int| #[trigger] first_query_at(held + a, i) implies {
        let all = held + (a + b);
        &&& first_query_at(all, i)
        &&& all.take(i) + all.skip(i + 4) == (held + a).take(i) + (held + a).skip(i + 4) + b
    } by {
        let all = held + (a + b);
        assert(all.subrange(i, i + 4) =~= (held + a).subrange(i, i + 4));
        assert forall|j: int| 0 <= j < i implies !#[trigger] query_at(all, j) by {
            assert(!query_at(held + a, j));
            assert(all.subrange(j, j + 4) =~= (held + a).subrange(j, j + 4));
        }
        assert(all.take(i) + all.skip(i + 4) =~= (held + a).take(i) + (held + a).skip(i + 4) + b);
    }
    if no_query(held + (a + b)) {
        assert forall|j: int| !#[trigger] query_at(held + a, j) by {
            if query_at(held + a, j) {
                assert((held + (a + b)).subrange(j, j + 4) =~= (held + a).subrange(j, j + 4));
                assert(query_at(held + (a + b), j));
            }
        }
    }
}

} // verus!
