//! Commands to run and what came of them.

use crate::text::views;
use vstd::prelude::*;

verus! {

/// A program to run, with its arguments, in a directory.
#[derive(Debug, Clone, PartialEq, Eq)]
pub struct Invocation {
    pub program: String,
    pub args: Vec<String>,
    pub dir: String,
}

/// The view of an invocation.
pub struct InvocationView {
    pub program: Seq<char>,
    pub args: Seq<Seq<char>>,
    pub dir: Seq<char>,
}

impl View for Invocation {
    type V = InvocationView;

    open spec fn view(&self) -> InvocationView {
        InvocationView { program: self.program@, args: views(self.args@), dir: self.dir@ }
    }
}

/// What a program printed and how it ended.
#[derive(Debug, Clone, PartialEq, Eq)]
pub struct Output {
    /// The exit code; none where a signal ended the program.
    pub code: Option<i32>,
    pub stdout: String,
    pub stderr: String,
}

impl Output {
    pub open spec fn ok(self) -> bool {
        self.code == Some(0i32)
    }

    /// Whether the program ended well.
    pub fn success(&self) -> (r: bool)
        ensures
            r == self.ok(),
    {
        match self.code {
            Some(code) => code == 0,
            None => false,
        }
    }
}

/// The exit code to report: that of the program, or one.
pub open spec fn reported(code: Option<i32>) -> i32 {
    match code {
        Some(code) => code,
        None => 1,
    }
}

/// The exit code to report: that of the program, or one.
pub fn exit_code(code: Option<i32>) -> (r: i32)
    ensures
        r == reported(code),
{
    match code {
        Some(code) => code,
        None => 1,
    }
}

// Commands that run one after another until one fails.

/// What to do after some steps of a script.
#[derive(Debug, Clone, Copy, PartialEq, Eq, Structural)]
pub enum Next {
    /// Run the step at this index.
    Run(usize),
    /// End with this exit code.
    Stop(i32),
}

/// What to do after `done` of `total` steps, the last of which ended with the code `last`: end
/// where that step failed or none is left.
pub open spec fn answer(total: int, done: int, last: i32) -> Next {
    if done > 0 && last != 0 {
        Next::Stop(last)
    } else if done < total {
        Next::Run(done as usize)
    } else {
        Next::Stop(0)
    }
}

/// What to do after `done` of `total` steps, the last of which ended with the code `last`.
pub fn next_step(total: usize, done: usize, last: i32) -> (r: Next)
    ensures
        r == answer(total as int, done as int, last),
{
    if done > 0 && last != 0 {
        Next::Stop(last)
    } else if done < total {
        Next::Run(done)
    } else {
        Next::Stop(0)
    }
}

/// The first code that is not zero, or zero.
pub open spec fn first_failure(codes: Seq<i32>) -> i32
    decreases codes.len(),
{
    if codes.len() == 0 {
        0
    } else if codes[0] != 0 {
        codes[0]
    } else {
        first_failure(codes.skip(1))
    }
}

/// A script whose steps would end with `codes`, followed from the step `done` on.
pub open spec fn followed(codes: Seq<i32>, done: int, last: i32) -> i32
    decreases codes.len() - done,
{
    match answer(codes.len() as int, done, last) {
        Next::Stop(code) => code,
        Next::Run(_) => if 0 <= done < codes.len() {
            followed(codes, done + 1, codes[done])
        } else {
            0
        },
    }
}

/// A script ends with the code of its first step that fails, or with zero.
pub proof fn law_script_stops_at_first_failure(codes: Seq<i32>)
    requires
        codes.len() <= usize::MAX,
    ensures
        followed(codes, 0, 0) == first_failure(codes),
{
    assert(codes.skip(0) =~= codes);
    lemma_followed(codes, 0);
}

proof fn lemma_followed(codes: Seq<i32>, done: int)
    requires
        0 <= done <= codes.len() <= usize::MAX,
    ensures
        followed(codes, done, 0) == first_failure(codes.skip(done)),
    decreases codes.len() - done,
{
    reveal_with_fuel(followed, 2);
    if done < codes.len() {
        assert(codes.skip(done).skip(1) =~= codes.skip(done + 1));
        if codes[done] == 0 {
            lemma_followed(codes, done + 1);
        } else {
            assert(answer(codes.len() as int, done + 1, codes[done]) == Next::Stop(codes[done]));
        }
    }
}

/// A program ended well where its code is zero; where a signal ended it, one is reported.
pub proof fn law_zero_is_success(output: &Output, r: bool, code: Option<i32>, reported: i32)
    requires
        call_ensures(Output::success, (output,), r),
        call_ensures(exit_code, (code,), reported),
    ensures
        r <==> output.code == Some(0i32),
        code matches Some(n) ==> reported == n,
        code is None ==> reported == 1,
{
}

/// Steps are run in turn; the first that fails ends the script with its code, and the last that
/// does not with zero.
pub proof fn law_steps_follow_one_another(total: usize, done: usize, last: i32, r: Next)
    requires
        call_ensures(next_step, (total, done, last), r),
    ensures
        done == 0 && total > 0 ==> r == Next::Run(0),
        0 < done < total && last == 0 ==> r == Next::Run(done),
        done > 0 && last != 0 ==> r == Next::Stop(last),
        done >= total && (done == 0 || last == 0) ==> r == Next::Stop(0),
{
}

} // verus!
