//! Turning a command line into the ordered list of sources to read.
use vstd::prelude::*;
use vstd::string::StrSliceExecFns;
use vstd::string::StringExecFns;

verus! {

/// Where lines come from: a file named on the command line, or standard
/// input.
pub enum Source {
    FilePath(String),
    StandardInput,
}

/// A source as a mathematical value.
pub enum SourceModel {
    File(Seq<char>),
    Stdin,
}

impl View for Source {
    type V = SourceModel;

    open spec fn view(&self) -> SourceModel {
        match self {
            Source::FilePath(p) => SourceModel::File(p@),
            Source::StandardInput => SourceModel::Stdin,
        }
    }
}

/// The flag token that announces file names: `--` followed by the name.
pub open spec fn flag_token(name: Seq<char>) -> Seq<char> {
    seq!['-', '-'] + name
}

/// An argument that begins with the flag prefix `-`; it ends a run of file
/// names.
pub open spec fn is_flag_like(arg: Seq<char>) -> bool {
    arg.len() > 0 && arg[0] == '-'
}

/// The file names in `args`: every argument after the first occurrence of
/// `flag`, up to the first flag-like argument after it, a second `flag`
/// included. Arguments before `flag` are ignored. `reading` says whether
/// `flag` has already been seen.
pub open spec fn collect_files(flag: Seq<char>, args: Seq<Seq<char>>, reading: bool) -> Seq<Seq<char>>
    decreases args.len(),
{
    if args.len() == 0 {
        Seq::empty()
    } else if reading && is_flag_like(args[0]) {
        Seq::empty()
    } else if !reading && args[0] == flag {
        collect_files(flag, args.drop_first(), true)
    } else if reading {
        seq![args[0]] + collect_files(flag, args.drop_first(), true)
    } else {
        collect_files(flag, args.drop_first(), false)
    }
}

/// The file names that follow the flag `--name` in `args`.
pub open spec fn file_args_of(name: Seq<char>, args: Seq<Seq<char>>) -> Seq<Seq<char>> {
    collect_files(flag_token(name), args, false)
}

/// The source list for `args`: one file source per name, in order, or
/// standard input alone when no file is named.
pub open spec fn sources_of(name: Seq<char>, args: Seq<Seq<char>>) -> Seq<SourceModel> {
    let files = file_args_of(name, args);
    if files.len() == 0 {
        seq![SourceModel::Stdin]
    } else {
        files.map_values(|f: Seq<char>| SourceModel::File(f))
    }
}

/// The views of a list of strings.
pub open spec fn views_of(args: Seq<String>) -> Seq<Seq<char>> {
    args.map_values(|a: String| a@)
}

/// The views of a list of sources.
pub open spec fn source_views(sources: Seq<Source>) -> Seq<SourceModel> {
    sources.map_values(|s: Source| s@)
}

fn starts_with_dash(arg: &String) -> (r: bool)
    ensures
        r == is_flag_like(arg@),
{
    let s = arg.as_str();
    s.unicode_len() > 0 && s.get_char(0) == '-'
}

/// The arguments that follow the first flag `--parameter_name`, up to the
/// end of `args` or the next argument that begins with `-` (a repeated flag
/// included). `args` holds
/// the command line without the program name.
pub fn extract_file_args(parameter_name: &str, args: &[String]) -> (r: Vec<String>)
    ensures
        views_of(r@) == file_args_of(parameter_name@, views_of(args@)),
{
    let flag = String::from_str("--").concat(parameter_name);
    proof {
        reveal_strlit("--");
        assert(flag@ == flag_token(parameter_name@));
    }
    let ghost all = views_of(args@);
    let mut files: Vec<String> = Vec::new();
    let mut reading = false;
    let mut i: usize = 0;
    proof {
        assert(all.skip(0) =~= all);
        assert(views_of(files@) + collect_files(flag@, all, false) =~= collect_files(flag@, all, false));
    }
    while i < args.len()
        invariant
            0 <= i <= args.len(),
            all == views_of(args@),
            flag@ == flag_token(parameter_name@),
            views_of(files@) + collect_files(flag@, all.skip(i as int), reading)
                == collect_files(flag@, all, false),
        decreases args.len() - i,
    {
        let arg = &args[i];
        proof {
            assert(all.skip(i as int)[0] == arg@);
            assert(all.skip(i as int).drop_first() =~= all.skip(i + 1));
        }
        if reading && starts_with_dash(arg) {
            proof {
                assert(views_of(files@) =~= views_of(files@) + Seq::<Seq<char>>::empty());
            }
            return files;
        } else if !reading && *arg == flag {
            reading = true;
        } else if reading {
            files.push(arg.clone());
            proof {
                assert(views_of(files@) =~= views_of(files@).drop_last().push(arg@));
            }
        }
        i = i + 1;
    }
    proof {
        assert(all.skip(i as int) =~= Seq::<Seq<char>>::empty());
        assert(views_of(files@) =~= views_of(files@) + Seq::<Seq<char>>::empty());
    }
    files
}

} // verus!

verus! {

/// The source list for the command line `args` (without the program name):
/// a file source for each name that follows `--parameter_name`, in order,
/// or standard input alone when there is none. Nothing is opened.
pub fn resolve_sources(parameter_name: &str, args: &[String]) -> (r: Vec<Source>)
    ensures
        source_views(r@) == sources_of(parameter_name@, views_of(args@)),
        r@.len() > 0,
{
    let files = extract_file_args(parameter_name, args);
    let ghost names = views_of(files@);
    let mut sources: Vec<Source> = Vec::new();
    if files.len() == 0 {
        sources.push(Source::StandardInput);
        proof {
            assert(source_views(sources@) =~= seq![SourceModel::Stdin]);
        }
        return sources;
    }
    let mut i: usize = 0;
    while i < files.len()
        invariant
            0 <= i <= files.len(),
            names == views_of(files@),
            source_views(sources@) =~= names.take(i as int).map_values(
                |f: Seq<char>| SourceModel::File(f),
            ),
        decreases files.len() - i,
    {
        let ghost before = sources@;
        sources.push(Source::FilePath(files[i].clone()));
        proof {
            assert(names[i as int] == files@[i as int]@);
            assert(source_views(sources@) =~= source_views(before).push(
                SourceModel::File(names[i as int]),
            ));
            assert(names.take(i + 1) =~= names.take(i as int).push(names[i as int]));
        }
        i = i + 1;
    }
    proof {
        assert(names.take(i as int) =~= names);
    }
    sources
}

} // verus!
