use vstd::prelude::*;
use crate::ident::{all_digits, i32_of_str, is_ascii_digit, str_to_chars, parse_i32_chars};
use crate::sort::{SortKey, sort_by_key, sort_vec_by_key};

verus! {

/// Whether a run folder's results tree is present.
#[derive(Clone, Copy, Debug, PartialEq, Eq, Structural)]
pub enum RunStatus {
    Complete,
    Incomplete,
}

/// One discovered run folder.
pub struct RunFolder {
    pub name: String,
    pub has_results: bool,
    pub status: RunStatus,
}

/// The discovered run folders, ordered, with their count.
pub struct ScanResult {
    pub folders: Vec<RunFolder>,
    pub total: usize,
}

/// The naming convention for run folders: the literal `run`, then one or
/// more ASCII digits, and nothing else.
pub open spec fn is_run_name(s: Seq<char>) -> bool {
    s.len() >= 4 && s[0] == 'r' && s[1] == 'u' && s[2] == 'n' && all_digits(s.skip(3))
}

/// The ordering key of a run folder name: the integer after `run`, or 0
/// where it does not fit the integer type.
pub open spec fn run_key(s: Seq<char>) -> int {
    if is_run_name(s) {
        match i32_of_str(s.skip(3)) {
            Some(v) => v,
            None => 0,
        }
    } else {
        0
    }
}

impl SortKey for RunFolder {
    open spec fn key(&self) -> int {
        run_key(self.name@)
    }

    fn key_exec(&self) -> (k: i32)
        ensures
            k as int == self.key(),
    {
        run_key_exec(&self.name)
    }
}

/// Whether a directory name follows the run folder convention.
pub fn is_run_name_exec(name: &str) -> (r: bool)
    ensures
        r == is_run_name(name@),
{
    let v = str_to_chars(name);
    let n = v.len();
    if n < 4 {
        return false;
    }
    if !(v[0] == 'r' && v[1] == 'u' && v[2] == 'n') {
        return false;
    }
    let mut i: usize = 3;
    while i < n
        invariant
            3 <= i <= n,
            n == v@.len(),
            v@ == name@,
            forall|k: int| 3 <= k < i ==> is_ascii_digit(v@[k]),
        decreases n - i,
    {
        let c = v[i];
        if !('0' <= c && c <= '9') {
            proof {
                assert(!is_ascii_digit(c));
                assert(v@.skip(3)[i - 3] == c);
                assert(!all_digits(v@.skip(3)));
            }
            return false;
        }
        i += 1;
    }
    assert forall|k: int| 0 <= k < v@.skip(3).len() implies is_ascii_digit(v@.skip(3)[k]) by {
        assert(v@.skip(3)[k] == v@[k + 3]);
    }
    true
}

/// The run folder ordering key of a name.
pub fn run_key_exec(name: &str) -> (k: i32)
    ensures
        k as int == run_key(name@),
{
    if !is_run_name_exec(name) {
        return 0;
    }
    let v = str_to_chars(name);
    let digits = crate::ident::sub_chars(&v, 3, v.len());
    assert(digits@ =~= name@.skip(3));
    match parse_i32_chars(&digits) {
        Some(x) => x,
        None => 0,
    }
}

/// The subsequence of names that follow the run folder convention, in the
/// order given.
pub open spec fn run_names_of(names: Seq<String>) -> Seq<String> {
    names.filter(|s: String| is_run_name(s@))
}

pub proof fn lemma_run_names_step(s: Seq<String>)
    requires
        s.len() > 0,
    ensures
        run_names_of(s) == run_names_of(s.drop_last()) + (if is_run_name(s.last()@) {
            seq![s.last()]
        } else {
            Seq::<String>::empty()
        }),
{
    reveal(Seq::filter);
}

/// The names that follow the run folder convention, in the order given.
pub fn filter_run_names(dirs: Vec<String>) -> (r: Vec<String>)
    ensures
        r@ == run_names_of(dirs@),
{
    let ghost all = dirs@;
    let mut rest = dirs;
    let mut r: Vec<String> = Vec::new();
    let ghost mut i: int = 0;
    while rest.len() > 0
        invariant
            0 <= i <= all.len(),
            rest@ == all.skip(i),
            r@ == run_names_of(all.take(i)),
        decreases rest@.len(),
    {
        assert(i < all.len());
        let name = rest.remove(0);
        assert(name == all[i]);
        assert(rest@ =~= all.skip(i + 1));
        let ghost pre = all.take(i);
        let ghost post = all.take(i + 1);
        proof {
            assert(post.drop_last() =~= pre);
            assert(post.last() == all[i]);
            lemma_run_names_step(post);
        }
        if is_run_name_exec(name.as_str()) {
            r.push(name);
        } else {
            assert(r@ =~= run_names_of(post));
        }
        proof {
            i = i + 1;
        }
    }
    assert(all.take(all.len() as int) =~= all);
    r
}

pub open spec fn mk_folder(name: String, has: bool) -> RunFolder {
    RunFolder {
        name,
        has_results: has,
        status: if has {
            RunStatus::Complete
        } else {
            RunStatus::Incomplete
        },
    }
}

pub open spec fn built_folders(names: Seq<String>, flags: Seq<bool>) -> Seq<RunFolder> {
    Seq::new(names.len(), |i: int| mk_folder(names[i], flags[i]))
}

/// Pairs each run folder name with whether its `results` subdirectory was
/// seen, marks its status, and orders the folders ascending by the integer
/// after `run`.
pub fn build_scan_result(names: Vec<String>, flags: Vec<bool>) -> (r: ScanResult)
    requires
        names@.len() == flags@.len(),
    ensures
        r.folders@ == sort_by_key(built_folders(names@, flags@)),
        r.total == r.folders@.len(),
{
    let ghost all = names@;
    let ghost fl = flags@;
    let mut rest = names;
    let mut folders: Vec<RunFolder> = Vec::new();
    while rest.len() > 0
        invariant
            folders@.len() <= all.len(),
            all.len() == fl.len(),
            rest@ == all.skip(folders@.len() as int),
            flags@ == fl,
            folders@ == built_folders(all, fl).take(folders@.len() as int),
        decreases rest@.len(),
    {
        let i = folders.len();
        assert((i as int) < all.len());
        let name = rest.remove(0);
        assert(name == all[i as int]);
        assert(rest@ =~= all.skip(i + 1 as int));
        let has = flags[i];
        let f = RunFolder {
            name,
            has_results: has,
            status: if has {
                RunStatus::Complete
            } else {
                RunStatus::Incomplete
            },
        };
        folders.push(f);
        assert(folders@ =~= built_folders(all, fl).take(i + 1 as int));
    }
    assert(built_folders(all, fl).take(all.len() as int) =~= built_folders(all, fl));
    sort_vec_by_key(&mut folders);
    let total = folders.len();
    ScanResult { folders, total }
}

} // verus!
