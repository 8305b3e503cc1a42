//! Classifier and dispatcher for line-oriented AT command protocols.
//!
//! A command line such as `AT+CMD`, `AT+CMD?`, `AT+CMD=?` or `AT+CMD=1,2` is split
//! into a command name and a form, and routed to the matching operation of the
//! handler registered under that name.
use vstd::prelude::*;

pub mod context;
pub mod parser;
pub mod text;

verus! {

/// Error types that can occur during AT command processing.
#[derive(PartialEq, Eq, Structural, Debug, Clone, Copy)]
pub enum AtError {
    /// The command is not recognized.
    UnknownCommand,
    /// The command is recognized but does not offer the requested form.
    NotSupported,
    /// The command arguments are invalid.
    InvalidArgs,
}

/// Result of an AT command: a static response text or an `AtError`.
pub type AtResult<'a> = Result<&'a str, AtError>;

/// The comma-separated fields of `s`, in order. Text without a comma is a single
/// field, and the empty text is one empty field.
pub open spec fn fields(s: Seq<char>) -> Seq<Seq<char>>
    decreases s.len(),
{
    if s.len() == 0 {
        seq![Seq::<char>::empty()]
    } else {
        let f = fields(s.drop_last());
        if s.last() == ',' {
            f.push(Seq::<char>::empty())
        } else {
            f.update(f.len() - 1, f.last().push(s.last()))
        }
    }
}

/// `fields` never yields an empty sequence.
pub proof fn lemma_fields_nonempty(s: Seq<char>)
    ensures
        fields(s).len() >= 1,
    decreases s.len(),
{
    if s.len() > 0 {
        lemma_fields_nonempty(s.drop_last());
    }
}

/// Extending a text keeps every field of the shorter text but its last one.
pub proof fn lemma_fields_prefix(s: Seq<char>, k: int, m: int)
    requires
        0 <= k <= m <= s.len(),
    ensures
        fields(s.take(m)).len() >= fields(s.take(k)).len(),
        forall|i: int|
            0 <= i < fields(s.take(k)).len() - 1 ==> #[trigger] fields(s.take(m))[i] == fields(
                s.take(k),
            )[i],
    decreases m - k,
{
    if m > k {
        lemma_fields_prefix(s, k, m - 1);
        lemma_fields_nonempty(s.take(m - 1));
        assert(s.take(m).drop_last() =~= s.take(m - 1));
    }
}

/// Arguments of a set command: the raw text after the first `=`.
pub struct Args<'a> {
    /// Raw argument text (comma-separated values).
    pub raw: &'a str,
}

impl<'a> Args<'a> {
    /// The field at `index` (0-based) of the comma-separated arguments, or `None`
    /// when there are not that many fields.
    pub fn get(&self, index: usize) -> (r: Option<&'a str>)
        ensures
            r is Some <==> index < fields(self.raw@).len(),
            r is Some ==> r->0@ == fields(self.raw@)[index as int],
    {
        let s = self.raw;
        let n = s.unicode_len();
        let mut count: usize = 0;
        let mut start: usize = 0;
        let mut k: usize = 0;
        proof {
            assert(s@.take(0) =~= Seq::<char>::empty());
        }
        while k < n
            invariant
                s@ == self.raw@,
                n == s@.len(),
                start <= k <= n,
                count <= index,
                fields(s@.take(k as int)).len() == count + 1,
                fields(s@.take(k as int)).last() == s@.subrange(start as int, k as int),
            decreases n - k,
        {
            let c = s.get_char(k);
            proof {
                assert(s@.take(k + 1).drop_last() =~= s@.take(k as int));
                assert(s@.take(k + 1).last() == c);
            }
            if c == ',' {
                if count == index {
                    let f = s.substring_char(start, k);
                    proof {
                        let before = fields(s@.take(k as int));
                        assert(fields(s@.take(k + 1)) == before.push(Seq::<char>::empty()));
                        lemma_fields_prefix(s@, k + 1, n as int);
                        assert(fields(s@.take(n as int))[index as int] == before.last());
                        assert(s@.take(n as int) =~= s@);
                    }
                    return Some(f);
                }
                count = count + 1;
                start = k + 1;
                proof {
                    assert(s@.subrange(start as int, k + 1) =~= Seq::<char>::empty());
                }
            } else {
                proof {
                    assert(s@.subrange(start as int, k + 1) =~= s@.subrange(
                        start as int,
                        k as int,
                    ).push(c));
                }
            }
            k = k + 1;
        }
        proof {
            assert(s@.take(n as int) =~= s@);
        }
        if count == index {
            Some(s.substring_char(start, n))
        } else {
            None
        }
    }
}

} // verus!
