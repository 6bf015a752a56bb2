//! The output writer's decisions: what to write where, in what order.
//!
//! Performing the writes is the caller's work; the plan is checked. For
//! in-place editing with a backup extension, the backup of the original
//! bytes comes strictly before the overwrite, so a crash mid-operation
//! leaves either the untouched original or original, backup and new content,
//! never a lost original. For print mode, each transformed text is followed
//! by one separator.

use vstd::prelude::*;

verus! {

/// One pending write: `content` replaces whatever `path` holds.
#[derive(Debug, Clone, PartialEq, Eq)]
pub struct FileWrite {
    pub path: String,
    pub content: String,
}

/// The writes that in-place editing of one source performs, in order: with a
/// backup extension configured, first the unmodified original to
/// `<path>.<extension>`, then the transformed text over `path`; without one,
/// only the overwrite, and no backup at all.
pub fn plan_in_place(
    path: &str,
    original: &str,
    replaced: &str,
    backup_ext: Option<&str>,
) -> (ops: Vec<FileWrite>)
    ensures
        match backup_ext {
            Some(ext) => {
                &&& ops@.len() == 2
                &&& ops@[0].path@ == path@ + "."@ + ext@
                &&& ops@[0].content@ == original@
                &&& ops@[1].path@ == path@
                &&& ops@[1].content@ == replaced@
            },
            None => {
                &&& ops@.len() == 1
                &&& ops@[0].path@ == path@
                &&& ops@[0].content@ == replaced@
            },
        },
{
    let mut ops: Vec<FileWrite> = Vec::new();
    match backup_ext {
        Some(ext) => {
            let mut backup_path = String::from_str(path);
            backup_path.append(".");
            backup_path.append(ext);
            ops.push(FileWrite { path: backup_path, content: String::from_str(original) });
            ops.push(FileWrite { path: String::from_str(path), content: String::from_str(replaced) });
        },
        None => {
            ops.push(FileWrite { path: String::from_str(path), content: String::from_str(replaced) });
        },
    }
    ops
}

/// What print mode sends to standard output for a list of transformed
/// texts: each text followed by one newline separator, in source order.
pub open spec fn rendered(outs: Seq<Seq<char>>) -> Seq<char>
    decreases outs.len(),
{
    if outs.len() == 0 {
        Seq::empty()
    } else {
        outs[0] + "\n"@ + rendered(outs.drop_first())
    }
}

proof fn lemma_rendered_push(outs: Seq<Seq<char>>, x: Seq<char>)
    ensures
        rendered(outs.push(x)) == rendered(outs) + x + "\n"@,
    decreases outs.len(),
{
    if outs.len() == 0 {
        reveal_with_fuel(rendered, 2);
        assert(outs.push(x).drop_first() =~~= Seq::<Seq<char>>::empty());
        assert(outs.push(x)[0] == x);
        assert(x + "\n"@ + Seq::<char>::empty() =~= Seq::<char>::empty() + x + "\n"@);
        assert(rendered(outs.push(x)) =~= rendered(outs) + x + "\n"@);
    } else {
        assert(outs.push(x)[0] == outs[0]);
        assert(outs.push(x).drop_first() =~~= outs.drop_first().push(x));
        lemma_rendered_push(outs.drop_first(), x);
        assert(outs[0] + "\n"@ + (rendered(outs.drop_first()) + x + "\n"@) =~= (outs[0] + "\n"@
            + rendered(outs.drop_first())) + x + "\n"@);
    }
    assert(rendered(outs.push(x)) =~= rendered(outs) + x + "\n"@);
}

/// Concatenates the transformed texts for print mode, each followed by one
/// newline separator, in source order.
pub fn render_outputs(outs: &Vec<String>) -> (r: String)
    ensures
        r@ == rendered(outs@.map_values(|s: String| s@)),
{
    let n = outs.len();
    let mut r = String::new();
    let mut i: usize = 0;
    proof {
        assert(outs@.subrange(0, 0) =~= Seq::<String>::empty());
        assert(Seq::<String>::empty().map_values(|s: String| s@) =~= Seq::<Seq<char>>::empty());
    }
    while i < n
        invariant
            i <= n,
            n == outs@.len(),
            r@ == rendered(outs@.subrange(0, i as int).map_values(|s: String| s@)),
        decreases n - i,
    {
        let ghost done = outs@.subrange(0, i as int).map_values(|s: String| s@);
        r.append(outs[i].as_str());
        r.append("\n");
        proof {
            assert(outs@.subrange(0, i + 1) =~= outs@.subrange(0, i as int).push(outs@[i as int]));
            assert(outs@.subrange(0, i + 1).map_values(|s: String| s@) =~= done.push(
                outs@[i as int]@,
            ));
            lemma_rendered_push(done, outs@[i as int]@);
        }
        i = i + 1;
    }
    proof {
        assert(outs@.subrange(0, n as int) =~= outs@);
    }
    r
}

} // verus!
