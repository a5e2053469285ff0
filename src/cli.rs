//! The command line: `ftoi [-e|-d] [-c] <input> [output]`.

use vstd::prelude::*;
use vstd::string::StrSliceExecFns;

verus! {

/// Which way the payload travels.
#[derive(Debug, Clone, Copy, PartialEq, Eq, Structural)]
pub enum Mode {
    Encode,
    Decode,
}

/// What a command line asks for.
pub struct Config {
    pub mode: Mode,
    pub compress: bool,
    pub input_path: String,
    /// `None`: standard output.
    pub output_path: Option<String>,
}

/// Why a command line was refused.
#[derive(Debug, Clone, Copy, PartialEq, Eq, Structural)]
pub enum UsageError {
    /// No input path was given.
    MissingInput,
}

/// An argument that starts with `-` carries option letters.
pub open spec fn is_flag(a: Seq<char>) -> bool {
    a.len() > 0 && a[0] == '-'
}

/// Some option argument holds the letter `ch` after its leading `-`.
pub open spec fn has_option(args: Seq<Seq<char>>, ch: char) -> bool {
    exists|i: int, j: int|
        0 <= i < args.len() && is_flag(args[i]) && 1 <= j < args[i].len() && #[trigger] args[i][j]
            == ch
}

/// The arguments that are not options, in order.
pub open spec fn positionals(args: Seq<Seq<char>>) -> Seq<Seq<char>> {
    args.filter(|a: Seq<char>| !is_flag(a))
}

/// The views of the arguments.
pub open spec fn arg_views(argv: Seq<String>) -> Seq<Seq<char>> {
    argv.map_values(|s: String| s@)
}

/// Whether `a` is an option argument that holds `ch` after its leading `-`.
fn option_holds(a: &String, ch: char) -> (r: bool)
    ensures
        r == (is_flag(a@) && exists|j: int| 1 <= j < a@.len() && a@[j] == ch),
{
    let s = a.as_str();
    let len = s.unicode_len();
    if len == 0 || s.get_char(0) != '-' {
        return false;
    }
    let mut j: usize = 1;
    while j < len
        invariant
            s@ == a@,
            len == a@.len(),
            1 <= j <= len,
            is_flag(a@),
            forall|k: int| 1 <= k < j ==> a@[k] != ch,
        decreases len - j,
    {
        if s.get_char(j) == ch {
            return true;
        }
        j = j + 1;
    }
    false
}

/// Parses the command line `argv`, program name first. Arguments that start
/// with `-` are options: the letter `d` anywhere after a `-` selects decoding
/// (else encoding), and `c` compression. Of the other arguments, the first is
/// the program, the second the input path and the third, if any, the output path.
pub fn parse_args(argv: &Vec<String>) -> (r: Result<Config, UsageError>)
    ensures
        r is Err <==> positionals(arg_views(argv@)).len() < 2,
        r matches Ok(c) ==> {
            let args = arg_views(argv@);
            let pos = positionals(args);
            &&& c.compress == has_option(args, 'c')
            &&& (c.mode == Mode::Decode) == has_option(args, 'd')
            &&& c.input_path@ == pos[1]
            &&& (pos.len() > 2 ==> (c.output_path matches Some(o) && o@ == pos[2]))
            &&& (pos.len() <= 2 ==> c.output_path is None)
        },
{
    let ghost args = arg_views(argv@);
    let mut compress = false;
    let mut decode = false;
    let mut pos: Vec<String> = Vec::new();
    let mut i: usize = 0;
    while i < argv.len()
        invariant
            0 <= i <= argv@.len(),
            args == arg_views(argv@),
            compress == has_option(args.take(i as int), 'c'),
            decode == has_option(args.take(i as int), 'd'),
            pos@.map_values(|s: String| s@) == positionals(args.take(i as int)),
        decreases argv@.len() - i,
    {
        let a = &argv[i];
        let ghost prev = args.take(i as int);
        let ghost next = args.take(i + 1);
        assert(next =~= prev.push(a@));
        let c_here = option_holds(a, 'c');
        let d_here = option_holds(a, 'd');
        proof {
            assert(has_option(next, 'c') == (has_option(prev, 'c') || c_here)) by {
                if c_here {
                    let j = choose|j: int| 1 <= j < a@.len() && a@[j] == 'c';
                    assert(next[i as int][j] == 'c');
                }
                if has_option(next, 'c') && !has_option(prev, 'c') {
                    let (ii, j) = choose|ii: int, j: int|
                        0 <= ii < next.len() && is_flag(next[ii]) && 1 <= j < next[ii].len()
                            && #[trigger] next[ii][j] == 'c';
                    if ii < i {
                        assert(prev[ii][j] == 'c');
                    }
                }
            }
            assert(has_option(next, 'd') == (has_option(prev, 'd') || d_here)) by {
                if d_here {
                    let j = choose|j: int| 1 <= j < a@.len() && a@[j] == 'd';
                    assert(next[i as int][j] == 'd');
                }
                if has_option(next, 'd') && !has_option(prev, 'd') {
                    let (ii, j) = choose|ii: int, j: int|
                        0 <= ii < next.len() && is_flag(next[ii]) && 1 <= j < next[ii].len()
                            && #[trigger] next[ii][j] == 'd';
                    if ii < i {
                        assert(prev[ii][j] == 'd');
                    }
                }
            }
            reveal(Seq::filter);
            assert(positionals(next) == if is_flag(a@) {
                positionals(prev)
            } else {
                positionals(prev).push(a@)
            }) by {
                assert(next.drop_last() =~= prev);
            }
        }
        compress = compress || c_here;
        decode = decode || d_here;
        let s = a.as_str();
        if s.unicode_len() == 0 || s.get_char(0) != '-' {
            pos.push(a.clone());
            assert(pos@.map_values(|s: String| s@) =~= positionals(next));
        }
        i = i + 1;
    }
    assert(args.take(argv@.len() as int) =~= args);
    assert(pos@.map_values(|s: String| s@).len() == pos@.len());
    if pos.len() < 2 {
        return Err(UsageError::MissingInput);
    }
    let ghost pv = pos@.map_values(|s: String| s@);
    assert(pv[1] == pos@[1]@);
    let input_path = pos[1].clone();
    let output_path = if pos.len() > 2 {
        assert(pv[2] == pos@[2]@);
        Some(pos[2].clone())
    } else {
        None
    };
    let mode = if decode {
        Mode::Decode
    } else {
        Mode::Encode
    };
    Ok(Config { mode, compress, input_path, output_path })
}

} // verus!
