use vstd::prelude::*;

verus! {

/// Whether one argument asks for the version banner rather than naming a
/// file to edit.
pub open spec fn is_version_arg(a: Seq<char>) -> bool {
    a == "--version"@ || a == "-V"@
}

/// The character sequences behind a sequence of strings.
pub open spec fn str_views(s: Seq<String>) -> Seq<Seq<char>> {
    Seq::new(s.len(), |i: int| s[i]@)
}

/// The file arguments among `args`, in order: every argument that is not a
/// version flag.
pub open spec fn parsed_files(args: Seq<Seq<char>>) -> Seq<Seq<char>>
    decreases args.len(),
{
    if args.len() == 0 {
        Seq::empty()
    } else {
        let rest = parsed_files(args.drop_first());
        if is_version_arg(args[0]) {
            rest
        } else {
            seq![args[0]] + rest
        }
    }
}

/// Whether some argument in `args` is a version flag.
pub open spec fn parsed_version(args: Seq<Seq<char>>) -> bool {
    exists|i: int| 0 <= i < args.len() && is_version_arg(args[i])
}

/// The arguments that follow the program's own name.
pub open spec fn arg_tail(args: Seq<String>) -> Seq<Seq<char>> {
    if args.len() == 0 {
        Seq::empty()
    } else {
        str_views(args).drop_first()
    }
}

/// Command line options: the files to edit and the version flag.
#[derive(Debug)]
pub struct CliOpt {
    version: bool,
    file: Vec<String>,
}

impl CliOpt {
    /// Whether the version banner was asked for.
    pub closed spec fn spec_version(self) -> bool {
        self.version
    }

    /// The file arguments, as character sequences.
    pub closed spec fn spec_files(self) -> Seq<Seq<char>> {
        str_views(self.file@)
    }

    /// Options built from their parts.
    pub fn new(version: bool, file: Vec<String>) -> (r: CliOpt)
        ensures
            r.spec_version() == version,
            r.spec_files() == str_views(file@),
    {
        CliOpt { version, file }
    }

    /// Input files.
    pub fn file(&self) -> (r: &Vec<String>)
        ensures
            str_views(r@) == self.spec_files(),
    {
        &self.file
    }

    /// Version.
    pub fn version(&self) -> (r: bool)
        ensures
            r == self.spec_version(),
    {
        self.version
    }

    /// Read options from a full argument list, whose first element is the
    /// program's own name: a version flag anywhere sets the version option,
    /// and every other argument names a file to edit, in the order given.
    #[verifier::loop_isolation(false)]
    pub fn parse_from(args: &Vec<String>) -> (r: CliOpt)
        ensures
            r.spec_version() == parsed_version(arg_tail(args@)),
            r.spec_files() == parsed_files(arg_tail(args@)),
    {
        let mut version = false;
        let mut file: Vec<String> = Vec::new();
        let n = args.len();
        if n == 0 {
            proof {
                assert(str_views(file@) =~= parsed_files(arg_tail(args@)));
            }
            return CliOpt { version, file };
        }
        let ver_long: String = "--version".to_owned();
        let ver_short: String = "-V".to_owned();
        let ghost tail = str_views(args@).drop_first();
        let mut i: usize = 1;
        while i < n
            invariant
                1 <= i <= n,
                parsed_files(str_views(args@).subrange(1, n as int)) =~= str_views(file@)
                    + parsed_files(str_views(args@).subrange(i as int, n as int)),
                version == exists|j: int| 1 <= j < i && is_version_arg(args@[j]@),
            decreases n - i,
        {
            let ghost suffix = str_views(args@).subrange(i as int, n as int);
            proof {
                assert(suffix[0] == args@[i as int]@);
                assert(suffix.drop_first() =~= str_views(args@).subrange(i + 1, n as int));
            }
            if args[i] == ver_long || args[i] == ver_short {
                version = true;
                proof {
                    assert(is_version_arg(args@[i as int]@));
                }
            } else {
                file.push(args[i].clone());
                proof {
                    assert(str_views(file@) =~= str_views(file@.drop_last()) + seq![
                        args@[i as int]@,
                    ]);
                }
            }
            i = i + 1;
        }
        proof {
            assert(str_views(args@).subrange(n as int, n as int) =~= Seq::<Seq<char>>::empty());
            assert(arg_tail(args@) =~= str_views(args@).subrange(1, n as int));
            assert forall|j: int| 1 <= j < n && is_version_arg(args@[j]@) implies parsed_version(
                arg_tail(args@),
            ) by {
                assert(arg_tail(args@)[j - 1] == args@[j]@);
            }
            if parsed_version(arg_tail(args@)) {
                let m = choose|m: int|
                    0 <= m < arg_tail(args@).len() && is_version_arg(arg_tail(args@)[m]);
                assert(args@[m + 1]@ == arg_tail(args@)[m]);
            }
        }
        CliOpt { version, file }
    }
}

} // verus!
