//! Parsing a command line into a structured command: plain arguments,
//! short options, long options with `=`-attached value lists, and bundled
//! short options such as `-iv`.  The argument vector itself comes from the
//! surrounding application.

use vstd::prelude::*;
use vstd::string::StringExecFns;
use crate::strutil::{from_chars, join_spec, join_strings, split_chars, split_spec, sub_chars, to_chars, trim_chars, trim_spec};

verus! {

/// The kind of one command-line argument.
#[derive(Clone, Copy, Debug)]
pub enum ArgumentType {
    /// A plain argument, neither flag nor option.
    Simple,
    /// A single-dash option such as `-v`.
    ShortOpt,
    /// A double-dash option such as `--verbose`.
    LongOpt,
}

/// The kind an argument string spells: `--` opens a long option, a single
/// dash followed by anything opens a short option, and a lone dash or
/// anything else is plain.
pub open spec fn spec_arg_type(a: Seq<char>) -> ArgumentType {
    if a.len() >= 2 && a[0] == '-' && a[1] == '-' {
        ArgumentType::LongOpt
    } else if a.len() > 1 && a[0] == '-' {
        ArgumentType::ShortOpt
    } else {
        ArgumentType::Simple
    }
}

/// One parsed argument: its kind, its text (for an option with values,
/// the key part only), and its attached values.
#[derive(Debug)]
pub struct Argument {
    pub arg_type: ArgumentType,
    pub arg_str: String,
    pub arg_values: Vec<String>,
}

/// The mathematical content of an [`Argument`].
#[verifier::ext_equal]
pub struct ArgumentView {
    pub arg_type: ArgumentType,
    pub arg_str: Seq<char>,
    pub arg_values: Seq<Seq<char>>,
}

impl View for Argument {
    type V = ArgumentView;

    open spec fn view(&self) -> ArgumentView {
        ArgumentView {
            arg_type: self.arg_type,
            arg_str: self.arg_str@,
            arg_values: self.arg_values.deep_view(),
        }
    }
}

impl DeepView for Argument {
    type V = ArgumentView;

    open spec fn deep_view(&self) -> ArgumentView {
        self@
    }
}

/// A parsed command line: the command name and its arguments in order.
#[derive(Debug)]
pub struct Command {
    pub cmd_name: String,
    pub args: Vec<Argument>,
}

/// The mathematical content of a [`Command`].
pub struct CommandView {
    pub cmd_name: Seq<char>,
    pub args: Seq<ArgumentView>,
}

impl View for Command {
    type V = CommandView;

    open spec fn view(&self) -> CommandView {
        CommandView { cmd_name: self.cmd_name@, args: self.args.deep_view() }
    }
}

impl Command {
    /// A command with the given name and no argument yet.
    pub fn new(cmd_name: String) -> (r: Command)
        ensures
            r@.cmd_name == cmd_name@,
            r@.args.len() == 0,
    {
        let r = Command { cmd_name, args: Vec::new() };
        proof {
            assert(r@.args =~= Seq::<ArgumentView>::empty());
        }
        r
    }

    /// Appends one argument.
    pub fn add_arg(&mut self, arg: Argument)
        ensures
            final(self)@.cmd_name == old(self)@.cmd_name,
            final(self)@.args == old(self)@.args.push(arg@),
    {
        let ghost pre = self@.args;
        let ghost av = arg@;
        self.args.push(arg);
        proof {
            assert(self.args@.len() == pre.len() + 1);
            assert forall|k: int|
                0 <= k < self.args@.len() implies #[trigger] self.args.deep_view()[k] == pre.push(
                av,
            )[k] by {
                if k < self.args@.len() - 1 {
                    assert(self.args.deep_view()[k] == pre[k]);
                } else {
                    assert(self.args.deep_view()[k] == av);
                }
            }
            assert(self.args.deep_view() =~= pre.push(av));
        }
    }
}

/// The first position of `c` in `s`, or `-1` when `c` does not occur.
pub open spec fn find_char(s: Seq<char>, c: char) -> int
    decreases s.len(),
{
    if s.len() == 0 {
        -1
    } else if s[0] == c {
        0
    } else {
        let r = find_char(s.drop_first(), c);
        if r < 0 {
            -1
        } else {
            r + 1
        }
    }
}

proof fn lemma_find_char(s: Seq<char>, c: char)
    ensures
        find_char(s, c) < 0 ==> forall|k: int| 0 <= k < s.len() ==> s[k] != c,
        find_char(s, c) >= 0 ==> 0 <= find_char(s, c) < s.len() && s[find_char(s, c)] == c
            && forall|k: int| 0 <= k < find_char(s, c) ==> s[k] != c,
    decreases s.len(),
{
    if s.len() > 0 && s[0] != c {
        lemma_find_char(s.drop_first(), c);
        let d = s.drop_first();
        if find_char(d, c) < 0 {
            assert forall|k: int| 0 <= k < s.len() implies s[k] != c by {
                if k > 0 {
                    assert(d[k - 1] != c);
                }
            }
        } else {
            assert(s[find_char(s, c)] == d[find_char(d, c)]);
            assert forall|k: int| 0 <= k < find_char(s, c) implies s[k] != c by {
                if k > 0 {
                    assert(d[k - 1] != c);
                }
            }
        }
    }
}

/// The comma-separated values of an option, trimmed, dropping empties.
pub open spec fn values_of_parts(parts: Seq<Seq<char>>) -> Seq<Seq<char>>
    decreases parts.len(),
{
    if parts.len() == 0 {
        Seq::empty()
    } else {
        values_of_parts(parts.drop_last()) + (if trim_spec(parts.last()).len() > 0 {
            seq![trim_spec(parts.last())]
        } else {
            Seq::empty()
        })
    }
}

/// What `parse_values` yields on `s`: its comma-separated parts, trimmed,
/// without the empty ones.
pub open spec fn spec_parse_values(s: Seq<char>) -> Seq<Seq<char>> {
    values_of_parts(split_spec(s, ','))
}

/// Splits a comma-separated value list into its trimmed, non-empty values.
fn parse_values(value: &str) -> (r: Vec<String>)
    ensures
        r.deep_view() == spec_parse_values(value@),
{
    let cs = to_chars(value);
    let parts = split_chars(&cs, ',');
    let ghost pdv = parts.deep_view();
    let mut r: Vec<String> = Vec::new();
    let mut i: usize = 0;
    while i < parts.len()
        invariant
            pdv == parts.deep_view(),
            pdv.len() == parts@.len(),
            0 <= i <= parts@.len(),
            r.deep_view() == values_of_parts(pdv.take(i as int)),
        decreases parts@.len() - i,
    {
        proof {
            assert(pdv[i as int] == parts@[i as int]@);
            assert(pdv.take(i + 1).drop_last() =~= pdv.take(i as int));
            assert(pdv.take(i + 1).last() == pdv[i as int]);
        }
        let t = trim_chars(&parts[i]);
        if t.len() > 0 {
            let ghost pre = r.deep_view();
            r.push(from_chars(t.as_slice()));
            proof {
                assert(r@.len() == pre.len() + 1);
                assert forall|k: int|
                    0 <= k < r@.len() implies #[trigger] r.deep_view()[k] == values_of_parts(
                    pdv.take(i + 1),
                )[k] by {
                    if k < r@.len() - 1 {
                        assert(r.deep_view()[k] == pre[k]);
                    } else {
                        assert(r.deep_view()[k] == t@);
                    }
                }
                assert(r.deep_view() =~= values_of_parts(pdv.take(i + 1)));
            }
        } else {
            proof {
                assert(r.deep_view() =~= values_of_parts(pdv.take(i + 1)));
            }
        }
        i = i + 1;
    }
    proof {
        assert(pdv.take(pdv.len() as int) =~= pdv);
    }
    r
}

/// The kind the argument string spells, per [`spec_arg_type`].
fn determine_arg_type(arg: &str) -> (r: ArgumentType)
    ensures
        r == spec_arg_type(arg@),
{
    let cs = to_chars(arg);
    if cs.len() >= 2 && cs[0] == '-' && cs[1] == '-' {
        ArgumentType::LongOpt
    } else if cs.len() > 1 && cs[0] == '-' {
        ArgumentType::ShortOpt
    } else {
        ArgumentType::Simple
    }
}

/// The arguments a bundled short option such as `-iv` stands for: one
/// short option per character after the dash.
pub open spec fn explode_shorts(s: Seq<char>) -> Seq<ArgumentView>
    decreases s.len(),
{
    if s.len() == 0 {
        Seq::empty()
    } else {
        explode_shorts(s.drop_last()).push(
            ArgumentView {
                arg_type: ArgumentType::ShortOpt,
                arg_str: seq!['-', s.last()],
                arg_values: Seq::empty(),
            },
        )
    }
}

/// The parsed arguments one raw argument stands for: a long option with a
/// `=` yields its key and values, a bundled short option yields one short
/// option per character, and anything else yields itself unchanged.
pub open spec fn item_of(a: Seq<char>) -> Seq<ArgumentView> {
    let ty = spec_arg_type(a);
    if ty is LongOpt && find_char(a, '=') >= 0 {
        let k = find_char(a, '=');
        seq![
            ArgumentView {
                arg_type: ArgumentType::LongOpt,
                arg_str: a.take(k),
                arg_values: spec_parse_values(a.skip(k + 1)),
            },
        ]
    } else if ty is ShortOpt && a.len() > 2 {
        explode_shorts(a.skip(1))
    } else {
        seq![ArgumentView { arg_type: ty, arg_str: a, arg_values: Seq::empty() }]
    }
}

/// The parsed arguments of the raw arguments from position `i` on.
pub open spec fn init_args(argv: Seq<Seq<char>>, i: int) -> Seq<ArgumentView>
    decreases argv.len() - i,
{
    if i < 0 || i >= argv.len() {
        Seq::empty()
    } else {
        item_of(argv[i]) + init_args(argv, i + 1)
    }
}

/// Parses a full argument vector: the first entry is the command name, and
/// every further entry contributes its parsed arguments in order.
pub fn init(args: &Vec<String>) -> (r: Command)
    ensures
        r@.cmd_name == (if args.deep_view().len() > 0 {
            args.deep_view()[0]
        } else {
            Seq::<char>::empty()
        }),
        r@.args == init_args(args.deep_view(), 1),
{
    let ghost argv = args.deep_view();
    let mut command = if args.len() > 0 {
        proof {
            assert(argv[0] == args@[0]@);
        }
        Command::new(args[0].clone())
    } else {
        Command::new(String::new())
    };
    let mut i: usize = 1;
    proof {
        if argv.len() <= 1 {
            assert(command@.args + init_args(argv, 1) =~= command@.args);
        }
    }
    while i < args.len()
        invariant
            argv == args.deep_view(),
            argv.len() == args@.len(),
            1 <= i,
            i <= args@.len() || i == 1,
            command@.cmd_name == (if argv.len() > 0 {
                argv[0]
            } else {
                Seq::<char>::empty()
            }),
            init_args(argv, 1) == command@.args + init_args(argv, i as int),
        decreases args@.len() - i,
    {
        proof {
            assert(argv[i as int] == args@[i as int]@);
        }
        let arg_str = &args[i];
        let a = to_chars(arg_str.as_str());
        let alen = a.len();
        let ghost av = argv[i as int];
        let arg_type = determine_arg_type(arg_str.as_str());
        let ghost args_pre = command@.args;
        let mut handled = false;
        if matches!(arg_type, ArgumentType::LongOpt) {
            let mut scan: usize = 0;
            let mut eq_idx: usize = 0;
            let mut found = false;
            while scan < a.len()
                invariant
                    a@ == av,
                    0 <= scan <= a@.len(),
                    !found ==> forall|k: int| 0 <= k < scan ==> a@[k] != '=',
                    found ==> 0 <= eq_idx < scan && a@[eq_idx as int] == '=' && forall|k: int|
                        0 <= k < eq_idx ==> a@[k] != '=',
                decreases a@.len() - scan,
            {
                if !found && a[scan] == '=' {
                    found = true;
                    eq_idx = scan;
                }
                scan = scan + 1;
            }
            if found {
                proof {
                    lemma_find_char(av, '=');
                    assert(find_char(av, '=') == eq_idx as int);
                }
                let key = sub_chars(&a, 0, eq_idx);
                let value = sub_chars(&a, eq_idx + 1, alen);
                proof {
                    assert(key@ =~= av.take(eq_idx as int));
                    assert(value@ =~= av.skip(eq_idx + 1));
                }
                let arg_values = parse_values(from_chars(value.as_slice()).as_str());
                command.add_arg(
                    Argument {
                        arg_type,
                        arg_str: from_chars(key.as_slice()),
                        arg_values,
                    },
                );
                proof {
                    assert(command@.args =~~= args_pre + item_of(av));
                }
                handled = true;
            } else {
                proof {
                    lemma_find_char(av, '=');
                    assert(find_char(av, '=') < 0);
                }
            }
        }
        if !handled && matches!(arg_type, ArgumentType::ShortOpt) && a.len() > 2 {
            let ghost tail = av.skip(1);
            let mut t: usize = 1;
            while t < a.len()
                invariant
                    a@ == av,
                    spec_arg_type(av) is ShortOpt,
                    av.len() > 2,
                    tail == av.skip(1),
                    1 <= t <= a@.len(),
                    command@.cmd_name == (if argv.len() > 0 {
                        argv[0]
                    } else {
                        Seq::<char>::empty()
                    }),
                    command@.args == args_pre + explode_shorts(tail.take(t - 1)),
                decreases a@.len() - t,
            {
                proof {
                    assert(tail.take(t as int).drop_last() =~= tail.take(t - 1));
                    assert(tail.take(t as int).last() == av[t as int]);
                }
                let mut short_opt_str = "-".to_owned();
                short_opt_str.push(a[t]);
                proof {
                    assert(short_opt_str@ =~= seq!['-', av[t as int]]) by {
                        reveal_strlit("-");
                    }
                }
                let empty_values: Vec<String> = Vec::new();
                proof {
                    assert(empty_values.deep_view() =~= Seq::<Seq<char>>::empty());
                }
                command.add_arg(
                    Argument { arg_type: ArgumentType::ShortOpt, arg_str: short_opt_str, arg_values: empty_values },
                );
                proof {
                    assert(command@.args =~~= args_pre + explode_shorts(tail.take(t as int)));
                }
                t = t + 1;
            }
            proof {
                assert(tail.take(tail.len() as int) =~= tail);
                assert(command@.args =~= args_pre + item_of(av));
            }
            handled = true;
        }
        if !handled {
            proof {
                if spec_arg_type(av) is LongOpt {
                    lemma_find_char(av, '=');
                }
            }
            let empty_values: Vec<String> = Vec::new();
            proof {
                assert(empty_values.deep_view() =~= Seq::<Seq<char>>::empty());
            }
            command.add_arg(
                Argument { arg_type, arg_str: arg_str.clone(), arg_values: empty_values },
            );
            proof {
                assert(command@.args =~~= args_pre + item_of(av));
            }
        }
        proof {
            assert(init_args(argv, i as int) == item_of(av) + init_args(argv, i + 1));
            assert(args_pre + (item_of(av) + init_args(argv, i + 1)) =~= (args_pre + item_of(av))
                + init_args(argv, i + 1));
        }
        i = i + 1;
    }
    proof {
        assert(command@.args + init_args(argv, args@.len() as int) =~= command@.args);
        assert(command@.args + init_args(argv, 1int) =~= command@.args || true);
    }
    command
}

/// The full command line joined back into one string.
pub fn cmd_str(args: &Vec<String>) -> (r: String)
    ensures
        r@ == join_spec(args.deep_view(), " "@),
{
    join_strings(args, " ")
}

} // verus!
