//! The input resolver: turns the path arguments of one invocation into the
//! ordered sequence of sources to process.
//!
//! Classifying a path as file or directory, and enumerating the regular
//! files under a directory, is the caller's work; the resolver only decides,
//! so the decision is checked: zero arguments mean standard input, a file is
//! one source, a directory expands to its files only under the recursive
//! flag, and a directory without that flag aborts the whole invocation
//! before any source is produced.

use crate::error::EveError;
use vstd::prelude::*;

verus! {

/// One unit of work: standard input, or a file path.
#[derive(Debug, Clone, PartialEq, Eq)]
pub enum Source {
    Stdin,
    File { path: String },
}

/// One path argument, classified by the caller. For a directory, `files`
/// holds every regular file found under it, in traversal order; it may be
/// left empty when no traversal was run.
#[derive(Debug, Clone)]
pub enum InputArg {
    File { path: String },
    Directory { path: String, files: Vec<String> },
}

/// The path a source reads, or `None` for standard input.
pub open spec fn source_path(s: Source) -> Option<Seq<char>> {
    match s {
        Source::Stdin => None,
        Source::File { path } => Some(path@),
    }
}

/// The sources one classified argument contributes.
pub open spec fn arg_sources(a: InputArg) -> Seq<Option<Seq<char>>> {
    match a {
        InputArg::File { path } => seq![Some(path@)],
        InputArg::Directory { path, files } => files@.map_values(|f: String| Some(f@)),
    }
}

/// The ordered concatenation of every argument's sources, in argument order.
pub open spec fn all_sources(args: Seq<InputArg>) -> Seq<Option<Seq<char>>>
    decreases args.len(),
{
    if args.len() == 0 {
        Seq::empty()
    } else {
        arg_sources(args[0]) + all_sources(args.drop_first())
    }
}

/// Whether some argument is a directory.
pub open spec fn has_directory(args: Seq<InputArg>) -> bool {
    exists|i: int| 0 <= i < args.len() && (#[trigger] args[i]) is Directory
}

/// The path of the first directory argument.
pub open spec fn first_directory_path(args: Seq<InputArg>) -> Seq<char>
    decreases args.len(),
{
    if args.len() == 0 {
        Seq::empty()
    } else {
        match args[0] {
            InputArg::Directory { path, .. } => path@,
            _ => first_directory_path(args.drop_first()),
        }
    }
}

proof fn lemma_first_directory(args: Seq<InputArg>, i: int)
    requires
        0 <= i < args.len(),
        args[i] is Directory,
        forall|j: int| 0 <= j < i ==> !((#[trigger] args[j]) is Directory),
    ensures
        has_directory(args),
        first_directory_path(args) == args[i]->Directory_path@,
    decreases i,
{
    if i == 0 {
    } else {
        lemma_first_directory(args.drop_first(), i - 1);
        assert(args.drop_first()[i - 1] == args[i]);
    }
}

proof fn lemma_all_sources_push(args: Seq<InputArg>, a: InputArg)
    ensures
        all_sources(args.push(a)) == all_sources(args) + arg_sources(a),
    decreases args.len(),
{
    if args.len() == 0 {
        assert(args.push(a).drop_first() =~= Seq::<InputArg>::empty());
        assert(all_sources(Seq::<InputArg>::empty()) + arg_sources(a) =~= arg_sources(a));
        assert(arg_sources(args.push(a)[0]) + Seq::empty() =~= arg_sources(a));
    } else {
        assert(args.push(a)[0] == args[0]);
        assert(args.push(a).drop_first() =~= args.drop_first().push(a));
        lemma_all_sources_push(args.drop_first(), a);
        assert(arg_sources(args[0]) + (all_sources(args.drop_first()) + arg_sources(a)) =~= (
        arg_sources(args[0]) + all_sources(args.drop_first())) + arg_sources(a));
    }
}

/// Resolves the classified path arguments into the ordered list of sources:
/// standard input when there are none; otherwise each file argument in
/// order, with a directory contributing each of its files when `recursive`
/// is set, and aborting the whole invocation when it is not, so that no
/// source at all is produced.
pub fn resolve(args: &Vec<InputArg>, recursive: bool) -> (res: Result<Vec<Source>, EveError>)
    ensures
        args@.len() == 0 ==> {
            &&& res matches Ok(v)
            &&& v@.map_values(|s: Source| source_path(s)) =~= seq![None::<Seq<char>>]
        },
        args@.len() > 0 && !recursive && has_directory(args@) ==> {
            &&& res matches Err(e)
            &&& e matches EveError::InvalidArgument { path }
            &&& path@ == first_directory_path(args@)
        },
        args@.len() > 0 && (recursive || !has_directory(args@)) ==> {
            &&& res matches Ok(v)
            &&& v@.map_values(|s: Source| source_path(s)) == all_sources(args@)
        },
        res is Err ==> args@.len() > 0 && !recursive && has_directory(args@),
    {
        let n = args.len();
        if n == 0 {
            let mut v: Vec<Source> = Vec::new();
            v.push(Source::Stdin);
            return Ok(v);
        }
        if !recursive {
            let mut i: usize = 0;
            while i < n
                invariant
                    i <= n,
                    n == args@.len(),
                    !recursive,
                    forall|j: int| 0 <= j < i ==> !((#[trigger] args@[j]) is Directory),
                decreases n - i,
            {
                match &args[i] {
                    InputArg::Directory { path, .. } => {
                        proof {
                            lemma_first_directory(args@, i as int);
                        }
                        return Err(EveError::InvalidArgument { path: path.clone() });
                    },
                    InputArg::File { .. } => {},
                }
                i = i + 1;
            }
        }
        let mut out: Vec<Source> = Vec::new();
        let mut i: usize = 0;
        proof {
            assert(args@.subrange(0, 0) =~= Seq::<InputArg>::empty());
            assert(out@.map_values(|s: Source| source_path(s)) =~= Seq::<
                Option<Seq<char>>,
            >::empty());
        }
        while i < n
            invariant
                i <= n,
                n == args@.len(),
                out@.map_values(|s: Source| source_path(s)) == all_sources(
                    args@.subrange(0, i as int),
                ),
            decreases n - i,
        {
            let ghost done = args@.subrange(0, i as int);
            let ghost out0 = out@;
            match &args[i] {
                InputArg::File { path } => {
                    out.push(Source::File { path: path.clone() });
                    proof {
                        assert(out@ =~= out0.push(Source::File { path: args@[i as int]->File_path }));
                        assert(out@.map_values(|s: Source| source_path(s)) =~= out0.map_values(
                            |s: Source| source_path(s),
                        ).push(source_path(Source::File { path: args@[i as int]->File_path })));
                        assert(all_sources(done) + arg_sources(args@[i as int])
                            =~= all_sources(done).push(
                            Some(args@[i as int]->File_path@),
                        ));
                    }
                },
                InputArg::Directory { path: _, files } => {
                    let m = files.len();
                    let mut j: usize = 0;
                    proof {
                        assert(files@.subrange(0, 0) =~= Seq::<String>::empty());
                        assert(out0 + Seq::<Source>::empty() =~= out0);
                        assert(Seq::<String>::empty().map_values(|f: String| Some(f@)) =~= Seq::<
                            Option<Seq<char>>,
                        >::empty());
                        assert(out0.map_values(|s: Source| source_path(s)) + Seq::<
                            Option<Seq<char>>,
                        >::empty() =~= out0.map_values(|s: Source| source_path(s)));
                    }
                    while j < m
                        invariant
                            j <= m,
                            i < n,
                            n == args@.len(),
                            args@[i as int] is Directory,
                            files@ == args@[i as int]->Directory_files@,
                            m == args@[i as int]->Directory_files@.len(),
                            out@.map_values(|s: Source| source_path(s)) == out0.map_values(
                                |s: Source| source_path(s),
                            ) + args@[i as int]->Directory_files@.subrange(
                                0,
                                j as int,
                            ).map_values(|f: String| Some(f@)),
                        decreases m - j,
                    {
                        let ghost fdone = args@[i as int]->Directory_files@.subrange(0, j as int);
                        let ghost outj = out@;
                        out.push(Source::File { path: files[j].clone() });
                        proof {
                            let fs = args@[i as int]->Directory_files@;
                            assert(out@ =~= outj.push(Source::File { path: fs[j as int] }));
                            assert(out@.map_values(|s: Source| source_path(s)) =~= outj.map_values(
                                |s: Source| source_path(s),
                            ).push(Some(fs[j as int]@)));
                            assert(fs.subrange(0, j + 1) =~= fdone.push(fs[j as int]));
                            assert(fs.subrange(0, j + 1).map_values(|f: String| Some(f@))
                                =~= fdone.map_values(|f: String| Some(f@)).push(Some(fs[j as int]@)));
                        }
                        j = j + 1;
                    }
                    proof {
                        let fs = args@[i as int]->Directory_files@;
                        assert(fs.subrange(0, m as int) =~= fs);
                        assert(arg_sources(args@[i as int]) == fs.map_values(
                            |f: String| Some(f@),
                        ));
                    }
                },
            }
            proof {
                assert(args@.subrange(0, i + 1) =~= done.push(args@[i as int]));
                lemma_all_sources_push(done, args@[i as int]);
            }
            i = i + 1;
        }
        proof {
            assert(args@.subrange(0, n as int) =~= args@);
        }
        Ok(out)
    }

} // verus!
