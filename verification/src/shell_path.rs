//! The search path a desktop app needs to find cloud auth plugins: the
//! path a login shell reports, and well-known tool directories added
//! after it.
use vstd::prelude::*;
use crate::context::{trimmed, trim_text};
use crate::text::{views, seq_contains, string_of, str_contains, str_has_char, vec_has};

verus! {

/// The path a login shell printed, when it is a usable one: not blank
/// once trimmed, and naming a directory.
pub fn usable_shell_path(out: &str) -> (r: Option<String>)
    ensures
        match r {
            Some(p) => p@ == trimmed(out@) && p@.len() > 0 && p@.contains('/'),
            None => !(trimmed(out@).len() > 0 && trimmed(out@).contains('/')),
        },
{
    let t = trim_text(out);
    if !t.as_str().is_empty() && str_has_char(t.as_str(), '/') {
        Some(t)
    } else {
        None
    }
}

/// The tool directories tried, for home directory `home`.
pub open spec fn base_candidates(home: Seq<char>) -> Seq<Seq<char>> {
    seq![
        home + "/google-cloud-sdk/bin"@,
        home + "/Downloads/google-cloud-sdk/bin"@,
        home + "/Desktop/google-cloud-sdk/bin"@,
        home + "/.config/gcloud/bin"@,
        "/usr/local/bin"@,
        "/opt/homebrew/bin"@,
        "/opt/homebrew/sbin"@,
        "/usr/local/google-cloud-sdk/bin"@,
        "/snap/google-cloud-cli/current/bin"@,
        home + "/.local/bin"@,
        home + "/.cargo/bin"@,
        "/usr/local/sbin"@,
    ]
}

/// `list` with each of `dirs` put first in turn, unless empty or already
/// listed.
pub open spec fn with_dirs_first(list: Seq<Seq<char>>, dirs: Seq<Seq<char>>) -> Seq<Seq<char>>
    decreases dirs.len(),
{
    if dirs.len() == 0 {
        list
    } else {
        let r = with_dirs_first(list, dirs.drop_last());
        let d = dirs.last();
        if d.len() > 0 && !r.contains(d) { seq![d] + r } else { r }
    }
}

/// The directories tried, in order: the plugins' own directories (the
/// last found first), then the SDK's `bin` when the SDK root names a
/// directory, then the well-known ones.
pub open spec fn candidates_of(home: Seq<char>, sdk_root: Option<Seq<char>>, plugin_dirs: Seq<Seq<char>>) -> Seq<Seq<char>> {
    let base = base_candidates(home);
    let with_sdk = match sdk_root {
        Some(s) => if trimmed(s).contains('/') { seq![trimmed(s) + "/bin"@] + base } else { base },
        None => base,
    };
    with_dirs_first(with_sdk, plugin_dirs)
}

fn joined(a: &str, b: &str) -> (r: String)
    ensures
        r@ == a@ + b@,
{
    let mut s = string_of(a);
    s.append(b);
    s
}

/// The directories to try adding to the search path.
pub fn path_candidates(home: &str, sdk_root: &Option<String>, plugin_dirs: &Vec<String>) -> (r: Vec<String>)
    ensures
        views(r@) == candidates_of(home@, match *sdk_root { Some(s) => Some(s@), None => None }, views(plugin_dirs@)),
{
    let mut v: Vec<String> = Vec::new();
    v.push(joined(home, "/google-cloud-sdk/bin"));
    v.push(joined(home, "/Downloads/google-cloud-sdk/bin"));
    v.push(joined(home, "/Desktop/google-cloud-sdk/bin"));
    v.push(joined(home, "/.config/gcloud/bin"));
    v.push(string_of("/usr/local/bin"));
    v.push(string_of("/opt/homebrew/bin"));
    v.push(string_of("/opt/homebrew/sbin"));
    v.push(string_of("/usr/local/google-cloud-sdk/bin"));
    v.push(string_of("/snap/google-cloud-cli/current/bin"));
    v.push(joined(home, "/.local/bin"));
    v.push(joined(home, "/.cargo/bin"));
    v.push(string_of("/usr/local/sbin"));
    assert(views(v@) =~= base_candidates(home@));
    match sdk_root {
        Some(s) => {
            let t = trim_text(s.as_str());
            if str_has_char(t.as_str(), '/') {
                let bin = joined(t.as_str(), "/bin");
                let ghost before = views(v@);
                v.insert(0, bin);
                assert(views(v@) =~= seq![bin@] + before);
            }
        },
        None => {},
    }
    let ghost start = views(v@);
    let mut i: usize = 0;
    proof {
        assert(views(plugin_dirs@).subrange(0, 0) =~= Seq::<Seq<char>>::empty());
    }
    while i < plugin_dirs.len()
        invariant
            i <= plugin_dirs@.len(),
            views(v@) == with_dirs_first(start, views(plugin_dirs@).subrange(0, i as int)),
        decreases plugin_dirs@.len() - i,
    {
        proof {
            assert(views(plugin_dirs@).subrange(0, i + 1).drop_last() =~= views(plugin_dirs@).subrange(0, i as int));
            assert(views(plugin_dirs@).subrange(0, i + 1).last() == plugin_dirs@[i as int]@);
        }
        let d = &plugin_dirs[i];
        if !d.as_str().is_empty() && !vec_has(&v, d.as_str()) {
            let ghost before = views(v@);
            v.insert(0, d.clone());
            assert(views(v@) =~= seq![d@] + before);
        }
        i = i + 1;
    }
    assert(views(plugin_dirs@).subrange(0, plugin_dirs@.len() as int) =~= views(plugin_dirs@));
    v
}

/// `current` with each of `extras` that it does not contain appended,
/// after a `:`.
pub open spec fn extended_path(current: Seq<char>, extras: Seq<Seq<char>>) -> Seq<char>
    decreases extras.len(),
{
    if extras.len() == 0 {
        current
    } else {
        let r = extended_path(current, extras.drop_last());
        let e = extras.last();
        if seq_contains(current, e) { r } else { r + seq![':'] + e }
    }
}

/// Appends to the search path `current` the directories of `existing`
/// (those of the candidates that exist) that it does not contain yet.
pub fn extend_path(current: &str, existing: &Vec<String>) -> (r: String)
    ensures
        r@ == extended_path(current@, views(existing@)),
{
    let mut p = string_of(current);
    let mut i: usize = 0;
    proof {
        assert(views(existing@).subrange(0, 0) =~= Seq::<Seq<char>>::empty());
    }
    while i < existing.len()
        invariant
            i <= existing@.len(),
            p@ == extended_path(current@, views(existing@).subrange(0, i as int)),
        decreases existing@.len() - i,
    {
        proof {
            assert(views(existing@).subrange(0, i + 1).drop_last() =~= views(existing@).subrange(0, i as int));
            assert(views(existing@).subrange(0, i + 1).last() == existing@[i as int]@);
        }
        if !str_contains(current, existing[i].as_str()) {
            p.append(":");
            p.append(existing[i].as_str());
            proof {
                reveal_strlit(":");
                assert(p@ =~= extended_path(current@, views(existing@).subrange(0, i as int)) + seq![':'] + existing@[i as int]@);
            }
        }
        i = i + 1;
    }
    assert(views(existing@).subrange(0, existing@.len() as int) =~= views(existing@));
    p
}

} // verus!
