//! Shell applications.
//!
//! The shell reads a line, splits it into a command and its arguments,
//! and dispatches the command.  Reading keys and printing the result is
//! the runtime's work; the parsing and dispatch decisions live here.

use vstd::prelude::*;

verus! {

/// The crash console: prompts and reads lines, doing nothing with them
/// yet.  Its read-print loop is the runtime's work.
pub struct Crash {}

impl Crash {
    /// A crash console.
    pub fn new() -> (r: Crash) {
        Crash {  }
    }
}

/// The shell: prompts, reads a line, and runs the named command.  Its
/// read-print loop is the runtime's work; parsing and dispatch are
/// `parse_cmd` and `run_command`.
pub struct Gash {}

impl Gash {
    /// A shell.
    pub fn new() -> (r: Gash) {
        Gash {  }
    }
}

/// A shell command failure.
#[derive(Debug, Clone, Copy, PartialEq, Eq, Structural)]
pub enum ShellError {
    /// The named command does not exist.
    CommandNotFound,
}

/// Whether the byte is ascii whitespace: space, tab, newline, form feed
/// or carriage return.
pub open spec fn spec_is_space(b: u8) -> bool {
    b == 32 || b == 9 || b == 10 || b == 12 || b == 13
}

/// Whether the byte is ascii whitespace.
pub fn is_space(b: u8) -> (r: bool)
    ensures
        r == spec_is_space(b),
{
    b == 32 || b == 9 || b == 10 || b == 12 || b == 13
}

/// The words of `s` joined with single spaces.
pub open spec fn spec_join_words(words: Seq<Seq<u8>>) -> Seq<u8>
    decreases words.len(),
{
    if words.len() == 0 {
        Seq::empty()
    } else if words.len() == 1 {
        words[0]
    } else {
        words[0] + seq![32u8] + spec_join_words(words.drop_first())
    }
}

/// Joining distributes over appending one word at the end.
proof fn lemma_join_words_push(words: Seq<Seq<u8>>, w: Seq<u8>)
    ensures
        spec_join_words(words.push(w)) == if words.len() == 0 {
            w
        } else {
            spec_join_words(words) + seq![32u8] + w
        },
    decreases words.len(),
{
    if words.len() == 0 {
        assert(words.push(w)[0] == w);
    } else {
        assert(words.push(w)[0] == words[0]);
        assert(words.push(w).drop_first() =~= words.drop_first().push(w));
        lemma_join_words_push(words.drop_first(), w);
        if words.len() == 1 {
            assert(spec_join_words(words.push(w)) == words[0] + seq![32u8] + spec_join_words(
                words.drop_first().push(w),
            ));
            assert(spec_join_words(words.drop_first().push(w)) == w);
            assert(spec_join_words(words) == words[0]);
        } else {
            assert(spec_join_words(words.push(w)) == words[0] + seq![32u8] + spec_join_words(
                words.drop_first().push(w),
            ));
            assert(spec_join_words(words) == words[0] + seq![32u8] + spec_join_words(
                words.drop_first(),
            ));
            assert(words[0] + seq![32u8] + (spec_join_words(words.drop_first()) + seq![32u8] + w)
                =~= (words[0] + seq![32u8] + spec_join_words(words.drop_first())) + seq![32u8]
                + w);
        }
    }
}

/// One step at a time, splits the bytes of `s` into whitespace-separated
/// words, carrying the words found so far and the word being read.
pub open spec fn spec_scan_words(s: Seq<u8>, words: Seq<Seq<u8>>, current: Seq<u8>) -> (
    Seq<Seq<u8>>,
    Seq<u8>,
)
    decreases s.len(),
{
    if s.len() == 0 {
        (words, current)
    } else if spec_is_space(s[0]) {
        if current.len() > 0 {
            spec_scan_words(s.drop_first(), words.push(current), Seq::empty())
        } else {
            spec_scan_words(s.drop_first(), words, current)
        }
    } else {
        spec_scan_words(s.drop_first(), words, current.push(s[0]))
    }
}

/// The whitespace-separated words of `s`, in order.
pub open spec fn spec_words(s: Seq<u8>) -> Seq<Seq<u8>> {
    let scanned = spec_scan_words(s, Seq::empty(), Seq::empty());
    if scanned.1.len() > 0 {
        scanned.0.push(scanned.1)
    } else {
        scanned.0
    }
}

/// Splits a line into its first word — the command — and the remaining
/// words, dropping all whitespace.
///
/// Every returned word is nonempty and free of whitespace; a line of pure
/// whitespace yields an empty command and no arguments.
pub fn parse_cmd(input: &Vec<u8>) -> (r: (Vec<u8>, Vec<Vec<u8>>))
    ensures
        forall|k: int| 0 <= k < r.0@.len() ==> !spec_is_space(#[trigger] r.0@[k]),
        forall|i: int|
            0 <= i < r.1@.len() ==> (#[trigger] r.1@[i]).len() > 0 && (forall|k: int|
                0 <= k < r.1@[i].len() ==> !spec_is_space(#[trigger] r.1@[i][k])),
        ({
            let ws = spec_words(input@);
            &&& ws.len() == 0 ==> r.0@ == Seq::<u8>::empty() && r.1@.len() == 0
            &&& ws.len() > 0 ==> r.0@ == ws[0] && r.1@.map_values(|w: Vec<u8>| w@)
                == ws.drop_first()
        }),
{
    let ghost whole = input@;
    let mut words: Vec<Vec<u8>> = Vec::new();
    let mut current: Vec<u8> = Vec::new();
    let mut i: usize = 0;
    proof {
        assert(whole.skip(0) =~= whole);
        assert(words@.map_values(|w: Vec<u8>| w@) =~= Seq::<Seq<u8>>::empty());
    }
    while i < input.len()
        invariant
            whole == input@,
            i <= whole.len(),
            forall|k: int| 0 <= k < current@.len() ==> !spec_is_space(#[trigger] current@[k]),
            forall|j: int|
                0 <= j < words@.len() ==> (#[trigger] words@[j]).len() > 0 && (forall|k: int|
                    0 <= k < words@[j].len() ==> !spec_is_space(#[trigger] words@[j][k])),
            spec_scan_words(whole, Seq::empty(), Seq::empty()) == spec_scan_words(
                whole.skip(i as int),
                words@.map_values(|w: Vec<u8>| w@),
                current@,
            ),
        decreases whole.len() - i,
    {
        proof {
            assert(whole.skip(i as int)[0] == whole[i as int]);
            assert(whole.skip(i as int).drop_first() =~= whole.skip(i + 1));
        }
        let ghost words0 = words@.map_values(|w: Vec<u8>| w@);
        let b = input[i];
        if is_space(b) {
            if current.len() > 0 {
                let ghost cur0 = current@;
                words.push(current);
                current = Vec::new();
                proof {
                    assert(words@.map_values(|w: Vec<u8>| w@) =~= words0.push(cur0));
                }
            }
        } else {
            current.push(b);
        }
        i = i + 1;
    }
    proof {
        assert(whole.skip(whole.len() as int) =~= Seq::<u8>::empty());
    }
    if current.len() > 0 {
        let ghost words0 = words@.map_values(|w: Vec<u8>| w@);
        let ghost cur0 = current@;
        words.push(current);
        proof {
            assert(words@.map_values(|w: Vec<u8>| w@) =~= words0.push(cur0));
        }
    }
    proof {
        assert(words@.map_values(|w: Vec<u8>| w@) == spec_words(whole));
    }
    if words.len() > 0 {
        let ghost words1 = words@.map_values(|w: Vec<u8>| w@);
        let cmd = words.remove(0);
        proof {
            assert(words@.map_values(|w: Vec<u8>| w@) =~= words1.drop_first());
        }
        (cmd, words)
    } else {
        (Vec::new(), words)
    }
}

/// Whether two byte strings hold the same bytes.
pub fn bytes_eq(a: &Vec<u8>, b: &Vec<u8>) -> (r: bool)
    ensures
        r == (a@ == b@),
{
    if a.len() != b.len() {
        return false;
    }
    let mut i: usize = 0;
    while i < a.len()
        invariant
            a@.len() == b@.len(),
            i <= a@.len(),
            forall|k: int| 0 <= k < i ==> a@[k] == b@[k],
        decreases a@.len() - i,
    {
        if a[i] != b[i] {
            return false;
        }
        i = i + 1;
    }
    proof {
        assert(a@ =~= b@);
    }
    true
}

/// Echoes its arguments: the words joined with single spaces.
pub fn echo(args: &Vec<Vec<u8>>) -> (r: Vec<u8>)
    ensures
        r@ == spec_join_words(args@.map_values(|w: Vec<u8>| w@)),
{
    let ghost ws = args@.map_values(|w: Vec<u8>| w@);
    let mut out: Vec<u8> = Vec::new();
    let mut i: usize = 0;
    while i < args.len()
        invariant
            i <= args@.len(),
            ws == args@.map_values(|w: Vec<u8>| w@),
            out@ == spec_join_words(ws.take(i as int)),
        decreases args@.len() - i,
    {
        if i > 0 {
            out.push(32);
        }
        let mut word = args[i].clone();
        proof {
            assert(word@ =~= args@[i as int]@);
        }
        out.append(&mut word);
        proof {
            assert(ws.take(i + 1) =~= ws.take(i as int).push(ws[i as int]));
            lemma_join_words_push(ws.take(i as int), ws[i as int]);
            if i == 0 {
                assert(out@ =~= ws[0]);
            } else {
                assert(out@ =~= spec_join_words(ws.take(i as int)) + seq![32u8] + ws[i as int]);
            }
        }
        i = i + 1;
    }
    proof {
        assert(ws.take(ws.len() as int) =~= ws);
    }
    out
}

/// Lists the running processes; nothing is tracked yet, so the listing is
/// empty.
pub fn ps(_args: &Vec<Vec<u8>>) -> (r: Vec<u8>)
    ensures
        r@ == Seq::<u8>::empty(),
{
    Vec::new()
}

/// Runs a shell command: `echo` yields its arguments joined with spaces,
/// `ps` yields the (empty) process listing, and any other name is
/// reported as not found.
pub fn run_command(cmd: &Vec<u8>, args: &Vec<Vec<u8>>) -> (r: Result<Vec<u8>, ShellError>)
    ensures
        cmd@ == seq![101u8, 99u8, 104u8, 111u8] ==> (r matches Ok(out) && out@
            == spec_join_words(args@.map_values(|w: Vec<u8>| w@))),
        cmd@ == seq![112u8, 115u8] ==> (r matches Ok(out) && out@ == Seq::<u8>::empty()),
        cmd@ != seq![101u8, 99u8, 104u8, 111u8] && cmd@ != seq![112u8, 115u8] ==> r == Result::<
            Vec<u8>,
            ShellError,
        >::Err(ShellError::CommandNotFound),
{
    let mut echo_name: Vec<u8> = Vec::new();
    echo_name.push(101);
    echo_name.push(99);
    echo_name.push(104);
    echo_name.push(111);
    let mut ps_name: Vec<u8> = Vec::new();
    ps_name.push(112);
    ps_name.push(115);
    proof {
        assert(echo_name@ =~= seq![101u8, 99u8, 104u8, 111u8]);
        assert(ps_name@ =~= seq![112u8, 115u8]);
    }
    if bytes_eq(cmd, &echo_name) {
        Ok(echo(args))
    } else if bytes_eq(cmd, &ps_name) {
        Ok(ps(args))
    } else {
        Err(ShellError::CommandNotFound)
    }
}

} // verus!
