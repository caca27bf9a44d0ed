//! The decision core of the startup directory scan. The scan itself runs
//! outside this crate — something reads the process arguments, lists the
//! parent directory and hands the entries back — but which file is opened,
//! which deltas are applied and in what order, and which entries count as
//! siblings are decided and verified here.

use vstd::prelude::*;

use crate::paths::accepts;
use crate::paths::is_accepted_path;
use crate::state::File;
use crate::state::StateStore;
use crate::state::StateUpdate;
use crate::state::UpdateV;
use crate::state::lemma_deep_view_push;

verus! {

/// The fallback target a development build opens when no argument names one.
pub open spec fn dev_fallback() -> Seq<char> {
    "D:\\Images\\test.jpg"@
}

/// The fallback target: a fixed path in development builds, nothing in
/// production builds.
pub fn default_file(dev_build: bool) -> (r: Option<String>)
    ensures
        match r {
            Some(p) => dev_build && p@ == dev_fallback(),
            None => !dev_build,
        },
{
    if dev_build {
        Some("D:\\Images\\test.jpg".to_owned())
    } else {
        None
    }
}

/// The path to open: the first argument after the program name, else the
/// development fallback, else nothing.
pub open spec fn target_of(args: Seq<Seq<char>>, dev_build: bool) -> Option<Seq<char>> {
    if args.len() >= 2 {
        Some(args[1])
    } else if dev_build {
        Some(dev_fallback())
    } else {
        None
    }
}

/// The path to open, per `target_of`.
pub fn target_path(args: &Vec<String>, dev_build: bool) -> (r: Option<String>)
    ensures
        match r {
            Some(p) => target_of(args.deep_view(), dev_build) == Some(p@),
            None => target_of(args.deep_view(), dev_build) is None,
        },
{
    if args.len() >= 2 {
        let p = args[1].clone();
        proof {
            assert(args.deep_view()[1] == args@[1]@);
        }
        Some(p)
    } else {
        default_file(dev_build)
    }
}

/// The first two scan steps: record the launch arguments, and, when a target
/// path can be determined, record it as the opened file and return it so the
/// directory scan can go on. Exactly those deltas are applied, in that order.
pub fn begin_scan(store: &mut StateStore, args: Vec<String>, dev_build: bool) -> (r: Option<
    String,
>)
    requires
        old(store).wf(),
    ensures
        final(store).wf(),
        match r {
            Some(t) => {
                &&& target_of(args.deep_view(), dev_build) == Some(t@)
                &&& final(store).log() == old(store).log() + seq![
                    UpdateV::SetArgs(args.deep_view()),
                    UpdateV::SetOpened(t@),
                ]
            },
            None => {
                &&& target_of(args.deep_view(), dev_build) is None
                &&& final(store).log() == old(store).log().push(
                    UpdateV::SetArgs(args.deep_view()),
                )
            },
        },
{
    let target = target_path(&args, dev_build);
    let ghost argsv = args.deep_view();
    store.apply(StateUpdate::SetArgs(args));
    match target {
        None => None,
        Some(t) => {
            store.apply(StateUpdate::SetOpened(File { path: t.clone() }));
            proof {
                assert(final(store).log() =~= old(store).log() + seq![
                    UpdateV::SetArgs(argsv),
                    UpdateV::SetOpened(t@),
                ]);
            }
            Some(t)
        },
    }
}

/// The directory entries the scan keeps, in listing order.
pub open spec fn accepted_of(entries: Seq<Seq<char>>) -> Seq<Seq<char>> {
    entries.filter(|p: Seq<char>| accepts(p))
}

proof fn lemma_accepted_of_push(entries: Seq<Seq<char>>, p: Seq<char>)
    ensures
        accepted_of(entries.push(p)) == if accepts(p) {
            accepted_of(entries).push(p)
        } else {
            accepted_of(entries)
        },
{
    reveal(Seq::filter);
    assert(entries.push(p).drop_last() =~= entries);
    assert(entries.push(p).last() == p);
}

/// Apply the extension filter to a directory listing: the files kept, in
/// listing order.
pub fn filter_entries(entries: &Vec<String>) -> (r: Vec<File>)
    ensures
        r.deep_view() == accepted_of(entries.deep_view()),
{
    let mut r: Vec<File> = Vec::new();
    let mut i: usize = 0;
    while i < entries.len()
        invariant
            i <= entries.len(),
            r.deep_view() == accepted_of(entries.deep_view().take(i as int)),
        decreases entries.len() - i,
    {
        let ghost prefix = entries.deep_view().take(i as int);
        let ghost e = entries.deep_view()[i as int];
        proof {
            assert(e == entries@[i as int]@);
            lemma_accepted_of_push(prefix, e);
            assert(entries.deep_view().take(i as int + 1) =~= prefix.push(e));
        }
        if is_accepted_path(entries[i].as_str()) {
            let x = File { path: entries[i].clone() };
            let ghost gx = x;
            let ghost prev = r;
            r.push(x);
            proof {
                lemma_deep_view_push(prev, r, gx);
                assert(gx.deep_view() == e);
            }
        }
        i = i + 1;
    }
    proof {
        assert(entries.deep_view().take(entries@.len() as int) =~= entries.deep_view());
    }
    r
}

} // verus!
