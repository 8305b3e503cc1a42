//! Classification of a command line and dispatch to the registered handler.
use vstd::prelude::*;

use crate::context::AtContext;
use crate::text::{
    find_char, first_pos, lemma_first_pos, lemma_first_pos_bounds, same_text, trim, trimmed,
};
use crate::{Args, AtError, AtResult};

verus! {

/// The form of a command line, as a mathematical value.
pub ghost enum LineForm {
    Exec,
    Query,
    Test,
    SetArgs(Seq<char>),
}

/// The different forms an AT command can take.
pub enum AtForm<'a> {
    /// Execute without parameters (`AT+CMD`).
    Exec,
    /// Query the current state (`AT+CMD?`).
    Query,
    /// Test availability or valid ranges (`AT+CMD=?`).
    Test,
    /// Set with arguments (`AT+CMD=args`).
    SetArgs(Args<'a>),
}

impl<'a> View for AtForm<'a> {
    type V = LineForm;

    open spec fn view(&self) -> LineForm {
        match self {
            AtForm::Exec => LineForm::Exec,
            AtForm::Query => LineForm::Query,
            AtForm::Test => LineForm::Test,
            AtForm::SetArgs(args) => LineForm::SetArgs(args.raw@),
        }
    }
}

/// The line ends with `=?`.
pub open spec fn ends_with_test(s: Seq<char>) -> bool {
    s.len() >= 2 && s[s.len() - 2] == '=' && s[s.len() - 1] == '?'
}

/// The line ends with `?`.
pub open spec fn ends_with_query(s: Seq<char>) -> bool {
    s.len() >= 1 && s[s.len() - 1] == '?'
}

/// The line holds an `=`.
pub open spec fn has_assign(s: Seq<char>) -> bool {
    first_pos(s, '=') < s.len()
}

/// Command name and form of a trimmed line; the first rule that applies wins:
/// a `=?` suffix is a test, a `?` suffix a query, an `=` splits name from
/// arguments at its first occurrence, and anything else executes.
pub open spec fn classify(s: Seq<char>) -> (Seq<char>, LineForm) {
    if ends_with_test(s) {
        (s.take(s.len() - 2), LineForm::Test)
    } else if ends_with_query(s) {
        (s.take(s.len() - 1), LineForm::Query)
    } else if has_assign(s) {
        let p = first_pos(s, '=');
        (s.take(p), LineForm::SetArgs(s.skip(p + 1)))
    } else {
        (s, LineForm::Exec)
    }
}

/// Every line has exactly one form, chosen by the first rule that applies, and the
/// line is the command name followed by the text of its form: `=?` for a test,
/// `?` for a query, `=` and the arguments for a set (the name then holds no `=`),
/// nothing for an execute command.
pub proof fn lemma_classify_total(s: Seq<char>)
    ensures
        ({
            let (name, form) = classify(s);
            &&& form is Test <==> ends_with_test(s)
            &&& form is Query <==> !ends_with_test(s) && ends_with_query(s)
            &&& form is SetArgs <==> !ends_with_test(s) && !ends_with_query(s) && has_assign(s)
            &&& form is Exec <==> !ends_with_test(s) && !ends_with_query(s) && !has_assign(s)
            &&& form is Test ==> s == name + seq!['=', '?']
            &&& form is Query ==> s == name.push('?')
            &&& form is SetArgs ==> s == name + seq!['='] + form->SetArgs_0 && !name.contains('=')
            &&& form is Exec ==> s == name
        }),
{
    let (name, form) = classify(s);
    lemma_first_pos_bounds(s, '=');
    if form is Test {
        assert(s =~= name + seq!['=', '?']);
    } else if form is Query {
        assert(s =~= name.push('?'));
    } else if form is SetArgs {
        assert(s =~= name + seq!['='] + form->SetArgs_0);
        assert forall|j: int| 0 <= j < name.len() implies name[j] != '=' by {
            assert(name[j] == s[j]);
        }
    }
}

/// Parse a trimmed AT command line into its name and form. Classification never
/// fails: text without a suffix or `=` is an execute command.
pub fn parse<'a>(input: &'a str) -> (r: Result<(&'a str, AtForm<'a>), AtError>)
    ensures
        r is Ok,
        r is Ok ==> r->Ok_0.0@ == classify(input@).0 && r->Ok_0.1@ == classify(input@).1,
{
    let n = input.unicode_len();
    if n >= 2 && input.get_char(n - 2) == '=' && input.get_char(n - 1) == '?' {
        return Ok((input.substring_char(0, n - 2), AtForm::Test));
    }
    if n >= 1 && input.get_char(n - 1) == '?' {
        return Ok((input.substring_char(0, n - 1), AtForm::Query));
    }
    let p = find_char(input, '=');
    proof {
        lemma_first_pos_bounds(input@, '=');
    }
    if p < n {
        let name = input.substring_char(0, p);
        let raw = input.substring_char(p + 1, n);
        Ok((name, AtForm::SetArgs(Args { raw })))
    } else {
        Ok((input, AtForm::Exec))
    }
}

/// The names of a registry, in order.
pub open spec fn names<T>(cmds: Seq<(&'static str, T)>) -> Seq<Seq<char>> {
    cmds.map_values(|e: (&'static str, T)| e.0@)
}

/// Index of the entry of `cmds` that handles `line`: the first one named like the
/// line's command, or `cmds.len()` when no entry has that name.
pub open spec fn lookup<T>(cmds: Seq<(&'static str, T)>, line: Seq<char>) -> int {
    first_pos(names(cmds), classify(line).0)
}

/// `after` is `before` with at most the handler at `i` changed.
pub open spec fn others_kept<T>(
    before: Seq<(&'static str, T)>,
    after: Seq<(&'static str, T)>,
    i: int,
) -> bool {
    &&& after.len() == before.len()
    &&& forall|j: int| 0 <= j < before.len() && j != i ==> after[j] == before[j]
    &&& after[i].0 == before[i].0
}

/// The operations of `T` answer by the handler's state alone, and a set command
/// also by the text of its arguments.
pub open spec fn answers_by_state<T: AtContext>() -> bool {
    &&& forall|x: &T, y: &T, r1: AtResult<'static>, r2: AtResult<'static>|
        *x == *y && #[trigger] call_ensures(T::exec, (x,), r1) && #[trigger] call_ensures(
            T::exec,
            (y,),
            r2,
        ) ==> r1 == r2
    &&& forall|h1: &mut T, h2: &mut T, r1: AtResult<'static>, r2: AtResult<'static>|
        mut_ref_current(h1) == mut_ref_current(h2) && #[trigger] call_ensures(T::query, (h1,), r1)
            && #[trigger] call_ensures(T::query, (h2,), r2) ==> r1 == r2
    &&& forall|h1: &mut T, h2: &mut T, r1: AtResult<'static>, r2: AtResult<'static>|
        mut_ref_current(h1) == mut_ref_current(h2) && #[trigger] call_ensures(T::test, (h1,), r1)
            && #[trigger] call_ensures(T::test, (h2,), r2) ==> r1 == r2
    &&& forall|
        h1: &mut T,
        a1: Args,
        h2: &mut T,
        a2: Args,
        r1: AtResult<'static>,
        r2: AtResult<'static>,
    |
        mut_ref_current(h1) == mut_ref_current(h2) && a1.raw@ == a2.raw@ && #[trigger] call_ensures(
            T::set,
            (h1, a1),
            r1,
        ) && #[trigger] call_ensures(T::set, (h2, a2), r2) ==> r1 == r2
}

/// Dispatching the same line twice, against handlers that have no side effects and
/// answer by their state alone, gives the same result both times and leaves the
/// registry as it was.
pub proof fn lemma_dispatch_repeats<T: AtContext>(
    line: Seq<char>,
    c0: Seq<(&'static str, T)>,
    c1: Seq<(&'static str, T)>,
    c2: Seq<(&'static str, T)>,
    r1: AtResult<'static>,
    r2: AtResult<'static>,
)
    requires
        answers_by_state::<T>(),
        forall|h: &mut T, r: AtResult<'static>|
            #[trigger] call_ensures(T::query, (h,), r) ==> mut_ref_future(h) == mut_ref_current(h),
        forall|h: &mut T, r: AtResult<'static>|
            #[trigger] call_ensures(T::test, (h,), r) ==> mut_ref_future(h) == mut_ref_current(h),
        forall|h: &mut T, a: Args, r: AtResult<'static>|
            #[trigger] call_ensures(T::set, (h, a), r) ==> mut_ref_future(h) == mut_ref_current(h),
        // the first call takes the registry from `c0` to `c1` as `dispatch` promises,
        // the second from `c1` to `c2`
        ({
            let form = classify(line).1;
            let i = lookup(c0, line);
            let before = c0;
            let after = c1;
            if i == before.len() {
                r1 == Err::<&str, AtError>(AtError::UnknownCommand) && after == before
            } else {
                &&& others_kept(before, after, i)
                &&& form is Exec ==> after[i].1 == before[i].1 && call_ensures(
                    T::exec,
                    (&before[i].1,),
                    r1,
                )
                &&& form is Query ==> exists|h: &mut T|
                    mut_ref_current(h) == before[i].1 && mut_ref_future(h) == after[i].1
                        && #[trigger] call_ensures(T::query, (h,), r1)
                &&& form is Test ==> exists|h: &mut T|
                    mut_ref_current(h) == before[i].1 && mut_ref_future(h) == after[i].1
                        && #[trigger] call_ensures(T::test, (h,), r1)
                &&& form is SetArgs ==> exists|h: &mut T, a: Args|
                    a.raw@ == form->SetArgs_0 && mut_ref_current(h) == before[i].1
                        && mut_ref_future(h) == after[i].1 && #[trigger] call_ensures(
                        T::set,
                        (h, a),
                        r1,
                    )
            }
        }),
        ({
            let form = classify(line).1;
            let i = lookup(c1, line);
            let before = c1;
            let after = c2;
            if i == before.len() {
                r2 == Err::<&str, AtError>(AtError::UnknownCommand) && after == before
            } else {
                &&& others_kept(before, after, i)
                &&& form is Exec ==> after[i].1 == before[i].1 && call_ensures(
                    T::exec,
                    (&before[i].1,),
                    r2,
                )
                &&& form is Query ==> exists|h: &mut T|
                    mut_ref_current(h) == before[i].1 && mut_ref_future(h) == after[i].1
                        && #[trigger] call_ensures(T::query, (h,), r2)
                &&& form is Test ==> exists|h: &mut T|
                    mut_ref_current(h) == before[i].1 && mut_ref_future(h) == after[i].1
                        && #[trigger] call_ensures(T::test, (h,), r2)
                &&& form is SetArgs ==> exists|h: &mut T, a: Args|
                    a.raw@ == form->SetArgs_0 && mut_ref_current(h) == before[i].1
                        && mut_ref_future(h) == after[i].1 && #[trigger] call_ensures(
                        T::set,
                        (h, a),
                        r2,
                    )
            }
        }),
    ensures
        r1 == r2,
        c1 == c0,
        c2 == c0,
{
    let i = lookup(c0, line);
    if i < c0.len() {
        assert(c1[i] == c0[i]);
        assert(c1 =~= c0);
        assert(c2[i] == c0[i]);
        assert(c2 =~= c0);
        assert(lookup(c1, line) == i);
    } else {
        assert(c1 == c0);
        assert(lookup(c1, line) == i);
    }
}

/// The AT command dispatcher: an ordered registry of named handlers.
pub struct AtParser<T: AtContext> {
    /// Registered commands with their name and handler; the first entry with a
    /// given name is the one used.
    pub commands: Vec<(&'static str, T)>,
}

impl<T: AtContext> AtParser<T> {
    /// Create a parser with an empty registry.
    pub fn new() -> (r: Self)
        ensures
            r.commands@.len() == 0,
    {
        AtParser { commands: Vec::new() }
    }

    /// Replace the whole registry with `commands`.
    pub fn set_commands(&mut self, commands: Vec<(&'static str, T)>)
        ensures
            final(self).commands@ == commands@,
    {
        self.commands = commands;
    }

    /// Index of the first entry named `name`, or the registry's length if none is.
    fn find(&self, name: &str) -> (i: usize)
        ensures
            i == first_pos(names(self.commands@), name@),
    {
        let ghost ns = names(self.commands@);
        let mut i: usize = 0;
        while i < self.commands.len()
            invariant
                ns == names(self.commands@),
                ns.len() == self.commands@.len(),
                i <= self.commands@.len(),
                forall|j: int| 0 <= j < i ==> ns[j] != name@,
            decreases self.commands@.len() - i,
        {
            if same_text(self.commands[i].0, name) {
                proof {
                    lemma_first_pos(ns, name@, i as int);
                }
                return i;
            }
            i = i + 1;
        }
        proof {
            lemma_first_pos(ns, name@, i as int);
        }
        i
    }

    /// Classify an already trimmed line and route it to the operation of the
    /// matching handler, whose result is returned unchanged.
    pub fn dispatch(&mut self, line: &str) -> (r: AtResult<'static>)
        ensures
            ({
                let form = classify(line@).1;
                let i = lookup(old(self).commands@, line@);
                let before = old(self).commands@;
                let after = final(self).commands@;
                if i == before.len() {
                    r == Err::<&str, AtError>(AtError::UnknownCommand) && after == before
                } else {
                    &&& others_kept(before, after, i)
                    &&& form is Exec ==> after[i].1 == before[i].1 && call_ensures(
                        T::exec,
                        (&before[i].1,),
                        r,
                    )
                    &&& form is Query ==> exists|h: &mut T|
                        mut_ref_current(h) == before[i].1 && mut_ref_future(h) == after[i].1
                            && #[trigger] call_ensures(T::query, (h,), r)
                    &&& form is Test ==> exists|h: &mut T|
                        mut_ref_current(h) == before[i].1 && mut_ref_future(h) == after[i].1
                            && #[trigger] call_ensures(T::test, (h,), r)
                    &&& form is SetArgs ==> exists|h: &mut T, a: Args|
                        a.raw@ == form->SetArgs_0 && mut_ref_current(h) == before[i].1
                            && mut_ref_future(h) == after[i].1 && #[trigger] call_ensures(
                            T::set,
                            (h, a),
                            r,
                        )
                }
            }),
    {
        let (name, form) = match parse(line) {
            Ok(parsed) => parsed,
            Err(e) => return Err(e),
        };
        let i = self.find(name);
        proof {
            lemma_first_pos_bounds(names(self.commands@), name@);
        }
        if i == self.commands.len() {
            return Err(AtError::UnknownCommand);
        }
        match form {
            AtForm::Exec => self.commands[i].1.exec(),
            AtForm::Query => self.commands[i].1.query(),
            AtForm::Test => self.commands[i].1.test(),
            AtForm::SetArgs(args) => self.commands[i].1.set(args),
        }
    }

    /// Parse and execute an AT command line: surrounding whitespace is removed,
    /// then the line is dispatched.
    pub fn execute(&mut self, input: &str) -> (r: AtResult<'static>)
        ensures
            ({
                let form = classify(trimmed(input@)).1;
                let i = lookup(old(self).commands@, trimmed(input@));
                let before = old(self).commands@;
                let after = final(self).commands@;
                if i == before.len() {
                    r == Err::<&str, AtError>(AtError::UnknownCommand) && after == before
                } else {
                    &&& others_kept(before, after, i)
                    &&& form is Exec ==> after[i].1 == before[i].1 && call_ensures(
                        T::exec,
                        (&before[i].1,),
                        r,
                    )
                    &&& form is Query ==> exists|h: &mut T|
                        mut_ref_current(h) == before[i].1 && mut_ref_future(h) == after[i].1
                            && #[trigger] call_ensures(T::query, (h,), r)
                    &&& form is Test ==> exists|h: &mut T|
                        mut_ref_current(h) == before[i].1 && mut_ref_future(h) == after[i].1
                            && #[trigger] call_ensures(T::test, (h,), r)
                    &&& form is SetArgs ==> exists|h: &mut T, a: Args|
                        a.raw@ == form->SetArgs_0 && mut_ref_current(h) == before[i].1
                            && mut_ref_future(h) == after[i].1 && #[trigger] call_ensures(
                            T::set,
                            (h, a),
                            r,
                        )
                }
            }),
    {
        let line = trim(input);
        self.dispatch(line)
    }
}

} // verus!
