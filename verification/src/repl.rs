use vstd::prelude::*;
use vstd::string::StringExecFns;
use crate::text::chars_of;

verus! {

/// Whether a character is white space.
pub open spec fn is_space(c: char) -> bool {
    ||| '\u{9}' <= c <= '\u{d}'
    ||| c == ' '
    ||| c == '\u{85}'
    ||| c == '\u{a0}'
    ||| c == '\u{1680}'
    ||| '\u{2000}' <= c <= '\u{200a}'
    ||| c == '\u{2028}'
    ||| c == '\u{2029}'
    ||| c == '\u{202f}'
    ||| c == '\u{205f}'
    ||| c == '\u{3000}'
}

/// Whether a character is white space.
pub fn space(c: char) -> (b: bool)
    ensures
        b == is_space(c),
{
    ('\u{9}' <= c && c <= '\u{d}') || c == ' ' || c == '\u{85}' || c == '\u{a0}' || c == '\u{1680}'
        || ('\u{2000}' <= c && c <= '\u{200a}') || c == '\u{2028}' || c == '\u{2029}' || c
        == '\u{202f}' || c == '\u{205f}' || c == '\u{3000}'
}

/// A text without the white space at its start.
pub open spec fn trim_start(s: Seq<char>) -> Seq<char>
    decreases s.len(),
{
    if s.len() > 0 && is_space(s[0]) {
        trim_start(s.drop_first())
    } else {
        s
    }
}

/// A text without the white space at its end.
pub open spec fn trim_end(s: Seq<char>) -> Seq<char>
    decreases s.len(),
{
    if s.len() > 0 && is_space(s.last()) {
        trim_end(s.drop_last())
    } else {
        s
    }
}

/// A text without the white space at its start and at its end.
pub open spec fn trim(s: Seq<char>) -> Seq<char> {
    trim_end(trim_start(s))
}

proof fn lemma_trim_start(s: Seq<char>, k: int)
    requires
        0 <= k <= s.len(),
        forall|j: int| 0 <= j < k ==> is_space(#[trigger] s[j]),
        k < s.len() ==> !is_space(s[k]),
    ensures
        trim_start(s) == s.subrange(k, s.len() as int),
    decreases k,
{
    if k > 0 {
        assert(is_space(s[0]));
        let rest = s.drop_first();
        assert forall|j: int| 0 <= j < k - 1 implies is_space(#[trigger] rest[j]) by {
            assert(rest[j] == s[j + 1]);
        }
        lemma_trim_start(rest, k - 1);
        assert(rest.subrange(k - 1, rest.len() as int) =~= s.subrange(k, s.len() as int));
    } else {
        assert(s.subrange(0, s.len() as int) =~= s);
    }
}

proof fn lemma_trim_end(s: Seq<char>, k: int)
    requires
        0 <= k <= s.len(),
        forall|j: int| k <= j < s.len() ==> is_space(#[trigger] s[j]),
        k > 0 ==> !is_space(s[k - 1]),
    ensures
        trim_end(s) == s.subrange(0, k),
    decreases s.len() - k,
{
    if k < s.len() {
        assert(is_space(s[s.len() - 1]));
        let rest = s.drop_last();
        assert forall|j: int| k <= j < rest.len() implies is_space(#[trigger] rest[j]) by {
            assert(rest[j] == s[j]);
        }
        lemma_trim_end(rest, k);
        assert(rest.subrange(0, k) =~= s.subrange(0, k));
    } else {
        assert(s.subrange(0, s.len() as int) =~= s);
    }
}

/// The characters of a line without the white space around them.
pub fn trimmed(line: &str) -> (chars: Vec<char>)
    ensures
        chars@ == trim(line@),
{
    let all = chars_of(line);
    let n = all.len();
    let mut start: usize = 0;
    while start < n && space(all[start])
        invariant
            start <= n,
            n == all@.len(),
            forall|j: int| 0 <= j < start ==> is_space(#[trigger] all@[j]),
        decreases n - start,
    {
        start += 1;
    }
    proof {
        lemma_trim_start(all@, start as int);
    }
    let mut end: usize = n;
    while end > start && space(all[end - 1])
        invariant
            start <= end <= n,
            n == all@.len(),
            forall|j: int| end <= j < n ==> is_space(#[trigger] all@[j]),
        decreases end,
    {
        end -= 1;
    }
    let mut chars: Vec<char> = Vec::new();
    let mut i: usize = start;
    while i < end
        invariant
            start <= i <= end <= n,
            n == all@.len(),
            chars@ == all@.subrange(start as int, i as int),
        decreases end - i,
    {
        chars.push(all[i]);
        i += 1;
        assert(chars@ =~= all@.subrange(start as int, i as int));
    }
    proof {
        let middle = all@.subrange(start as int, n as int);
        assert forall|j: int| end - start <= j < middle.len() implies is_space(
            #[trigger] middle[j],
        ) by {
            assert(middle[j] == all@[j + start]);
        }
        if end > start {
            assert(middle[end - start - 1] == all@[end - 1]);
        }
        lemma_trim_end(middle, end - start);
        assert(middle.subrange(0, end - start) =~= all@.subrange(start as int, end as int));
    }
    chars
}

/// What the read-eval-print loop does with a line.
#[derive(Debug)]
pub enum ReplAction {
    /// Ends the loop.
    Exit,
    /// Compiles and runs the program that the lines so far make up.
    Run(String),
    /// Reads on.
    Continue,
}

/// The read-eval-print loop between two lines: the lines of the program
/// that is being entered.
pub struct Repl {
    pub input: String,
}

impl Repl {
    /// A loop with nothing entered.
    pub fn new() -> (repl: Repl)
        ensures
            repl.input@ == Seq::<char>::empty(),
    {
        Repl { input: String::new() }
    }

    /// Takes a line. The line `exit`, with any white space around it, ends
    /// the loop. A blank line hands out the program entered so far and
    /// starts a new one. Any other line is added to the program, after a
    /// line feed.
    pub fn feed(&mut self, line: &str) -> (action: ReplAction)
        ensures
            trim(line@) == "exit"@ ==> action is Exit && final(self).input == old(self).input,
            trim(line@).len() == 0 ==> action is Run && action->Run_0@ == old(self).input@ && final(self).input@ == Seq::<char>::empty(),
            trim(line@) != "exit"@ && trim(line@).len() > 0 ==> action is Continue && final(self).input@ == old(self).input@ + seq!['\n'] + line@,
    {
        let word = trimmed(line);
        proof {
            reveal_strlit("exit");
            reveal_strlit("\n");
        }
        if word.len() == 4 && word[0] == 'e' && word[1] == 'x' && word[2] == 'i' && word[3] == 't' {
            assert(word@ =~= "exit"@);
            return ReplAction::Exit;
        }
        if word.len() == 0 {
            let mut program = String::new();
            std::mem::swap(&mut program, &mut self.input);
            return ReplAction::Run(program);
        }
        self.input.append("\n");
        self.input.append(line);
        assert(self.input@ =~= old(self).input@ + seq!['\n'] + line@);
        ReplAction::Continue
    }
}

} // verus!
