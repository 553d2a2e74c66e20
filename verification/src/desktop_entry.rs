//! Application entries read from XDG `.desktop` files, and the folders
//! where they are looked for.
use vstd::prelude::*;
use vstd::string::*;

use crate::text::{chars_of, split_on, split_ranges, str_equals, string_from_range};

verus! {

/// What the launcher keeps of one `.desktop` file: the name shown in search
/// results, its keywords and the path it was read from.
pub struct XdgDesktopEntry {
    pub display_name: String,
    pub keywords: Vec<String>,
    pub path: String,
}

/// `/applications`.
pub open spec fn applications_suffix() -> Seq<char> {
    seq!['/', 'a', 'p', 'p', 'l', 'i', 'c', 'a', 't', 'i', 'o', 'n', 's']
}

/// The applications folder of a data directory: one trailing `/` dropped,
/// then `/applications`.
pub open spec fn applications_folder(dir: Seq<char>) -> Seq<char> {
    let d = if dir.len() > 0 && dir.last() == '/' {
        dir.drop_last()
    } else {
        dir
    };
    d + applications_suffix()
}

/// The applications folders for the data home and the data directories
/// (each a `:`-separated list), in that order, each folder once.
pub open spec fn application_folders_spec(data_home: Seq<char>, data_dirs: Seq<char>) -> Seq<
    Seq<char>,
> {
    dedup_onto(
        Seq::empty(),
        (split_on(data_home, ':') + split_on(data_dirs, ':')).map_values(
            |d: Seq<char>| applications_folder(d),
        ),
    )
}

/// The data home: `$XDG_DATA_HOME`, else `$HOME/.local/share` (`~` when
/// `HOME` is unset).
pub open spec fn data_home_spec(home: Option<Seq<char>>, xdg_data_home: Option<Seq<char>>) -> Seq<
    char,
> {
    match xdg_data_home {
        Some(d) => d,
        None => match home {
            Some(h) => h + seq!['/', '.', 'l', 'o', 'c', 'a', 'l', '/', 's', 'h', 'a', 'r', 'e'],
            None => seq!['~', '/', '.', 'l', 'o', 'c', 'a', 'l', '/', 's', 'h', 'a', 'r', 'e'],
        },
    }
}

/// The data directories: `$XDG_DATA_DIRS`, else `/usr/local/share:/usr/share`.
pub open spec fn data_dirs_spec(xdg_data_dirs: Option<Seq<char>>) -> Seq<char> {
    match xdg_data_dirs {
        Some(d) => d,
        None => seq![
            '/', 'u', 's', 'r', '/', 'l', 'o', 'c', 'a', 'l', '/', 's', 'h', 'a', 'r', 'e', ':', '/',
            'u', 's', 'r', '/', 's', 'h', 'a', 'r', 'e',
        ],
    }
}

/// `s` with its last character dropped when that is `/`.
fn strip_trailing_slash(s: &Vec<char>, start: usize, end: usize) -> (e: usize)
    requires
        start <= end <= s@.len(),
    ensures
        start <= e <= end,
        s@.subrange(start as int, e as int) == (if s@.subrange(start as int, end as int).len() > 0
            && s@.subrange(start as int, end as int).last() == '/' {
            s@.subrange(start as int, end as int).drop_last()
        } else {
            s@.subrange(start as int, end as int)
        }),
{
    if end > start && s[end - 1] == '/' {
        assert(s@.subrange(start as int, end - 1) =~= s@.subrange(start as int, end as int).drop_last());
        end - 1
    } else {
        end
    }
}

/// The applications folders of `list`, in order, appended to `out` when not
/// there yet.
fn add_folders(list: &Vec<char>, out: &mut Vec<String>)
    ensures
        final(out)@.map_values(|f: String| f@) == dedup_onto(
            old(out)@.map_values(|f: String| f@),
            split_on(list@, ':').map_values(|d: Seq<char>| applications_folder(d)),
        ),
{
    let parts = split_ranges(list, ':');
    let ghost folders = split_on(list@, ':').map_values(|d: Seq<char>| applications_folder(d));
    let ghost start_out = old(out)@.map_values(|f: String| f@);
    let mut k: usize = 0;
    proof {
        assert(folders.take(0) =~= Seq::<Seq<char>>::empty());
    }
    while k < parts.len()
        invariant
            k <= parts@.len(),
            parts@.len() == split_on(list@, ':').len(),
            folders == split_on(list@, ':').map_values(|d: Seq<char>| applications_folder(d)),
            forall|j: int|
                0 <= j < parts@.len() ==> (#[trigger] parts@[j]).0 <= parts@[j].1 <= list@.len()
                    && list@.subrange(parts@[j].0 as int, parts@[j].1 as int) == split_on(
                    list@,
                    ':',
                )[j],
            out@.map_values(|f: String| f@) == dedup_onto(start_out, folders.take(k as int)),
        decreases parts@.len() - k,
    {
        let (start, end) = parts[k];
        let e = strip_trailing_slash(list, start, end);
        let mut folder = string_from_range(list, start, e);
        let suffix = String::from_str("/applications");
        proof {
            reveal_strlit("/applications");
            assert(suffix@ =~= applications_suffix());
        }
        folder.append(suffix.as_str());
        assert(folder@ == folders[k as int]);
        let mut seen = false;
        let mut j: usize = 0;
        while j < out.len()
            invariant
                j <= out@.len(),
                seen <==> exists|i: int| 0 <= i < j && out@[i]@ == folder@,
            decreases out@.len() - j,
        {
            if out[j] == folder {
                seen = true;
            }
            j += 1;
        }
        let ghost before = out@.map_values(|f: String| f@);
        proof {
            let t1 = folders.take(k + 1);
            assert(t1.drop_last() =~= folders.take(k as int));
            assert(t1.last() == folder@);
            if seen {
                let i = choose|i: int| 0 <= i < out@.len() && out@[i]@ == folder@;
                assert(before[i] == folder@);
                assert(before.contains(folder@));
            } else {
                assert forall|i: int| 0 <= i < before.len() implies before[i] != folder@ by {
                    assert(before[i] == out@[i]@);
                }
                assert(!before.contains(folder@));
            }
        }
        if !seen {
            out.push(folder);
            assert(out@.map_values(|f: String| f@) =~= before.push(folder@));
        }
        k += 1;
    }
    proof {
        assert(folders.take(parts@.len() as int) =~= folders);
    }
}

/// `acc` followed by the elements of `s` that it does not hold yet, each once.
pub open spec fn dedup_onto(acc: Seq<Seq<char>>, s: Seq<Seq<char>>) -> Seq<Seq<char>>
    decreases s.len(),
{
    if s.len() == 0 {
        acc
    } else if dedup_onto(acc, s.drop_last()).contains(s.last()) {
        dedup_onto(acc, s.drop_last())
    } else {
        dedup_onto(acc, s.drop_last()).push(s.last())
    }
}

/// Adding two lists one after the other adds their concatenation.
proof fn lemma_dedup_onto_concat(acc: Seq<Seq<char>>, a: Seq<Seq<char>>, b: Seq<Seq<char>>)
    ensures
        dedup_onto(acc, a + b) == dedup_onto(dedup_onto(acc, a), b),
    decreases b.len(),
{
    if b.len() == 0 {
        assert(a + b =~= a);
    } else {
        lemma_dedup_onto_concat(acc, a, b.drop_last());
        assert((a + b).drop_last() =~= a + b.drop_last());
        assert((a + b).last() == b.last());
    }
}

/// Adding a list keeps what was there, adds each new folder once and
/// drops none.
proof fn lemma_dedup_onto_props(acc: Seq<Seq<char>>, s: Seq<Seq<char>>)
    requires
        acc.no_duplicates(),
    ensures
        dedup_onto(acc, s).no_duplicates(),
        forall|x: Seq<char>|
            #[trigger] dedup_onto(acc, s).contains(x) <==> acc.contains(x) || s.contains(x),
    decreases s.len(),
{
    if s.len() > 0 {
        let init = s.drop_last();
        lemma_dedup_onto_props(acc, init);
        let r0 = dedup_onto(acc, init);
        assert forall|x: Seq<char>| s.contains(x) <==> init.contains(x) || x == s.last() by {
            if s.contains(x) {
                let i = choose|i: int| 0 <= i < s.len() && s[i] == x;
                if i < s.len() - 1 {
                    assert(init[i] == x);
                }
            }
            if init.contains(x) {
                let i = choose|i: int| 0 <= i < init.len() && init[i] == x;
                assert(s[i] == x);
            }
            if x == s.last() {
                assert(s[s.len() - 1] == x);
            }
        }
        if !r0.contains(s.last()) {
            let r = r0.push(s.last());
            assert forall|i: int, j: int| 0 <= i < j < r.len() implies r[i] != r[j] by {
                if j == r.len() - 1 {
                    assert(r0[i] == r[i]);
                }
            }
            assert forall|x: Seq<char>| r.contains(x) <==> r0.contains(x) || x == s.last() by {
                if r.contains(x) {
                    let i = choose|i: int| 0 <= i < r.len() && r[i] == x;
                    if i < r0.len() {
                        assert(r0[i] == x);
                    }
                }
                if r0.contains(x) {
                    let i = choose|i: int| 0 <= i < r0.len() && r0[i] == x;
                    assert(r[i] == x);
                }
                if x == s.last() {
                    assert(r[r.len() - 1] == x);
                }
            }
        }
    }
}

/// The applications folders are each listed once, and they are exactly the
/// applications folders of the data home and of the data directories.
pub proof fn lemma_application_folders_once(data_home: Seq<char>, data_dirs: Seq<char>)
    ensures
        application_folders_spec(data_home, data_dirs).no_duplicates(),
        forall|x: Seq<char>|
            #[trigger] application_folders_spec(data_home, data_dirs).contains(x) <==> (split_on(
                data_home,
                ':',
            ) + split_on(data_dirs, ':')).map_values(|d: Seq<char>| applications_folder(d)).contains(
                x,
            ),
{
    let empty = Seq::<Seq<char>>::empty();
    assert(empty.no_duplicates());
    lemma_dedup_onto_props(
        empty,
        (split_on(data_home, ':') + split_on(data_dirs, ':')).map_values(
            |d: Seq<char>| applications_folder(d),
        ),
    );
}

/// The folders where `.desktop` files are looked for, given `$HOME`,
/// `$XDG_DATA_HOME` and `$XDG_DATA_DIRS` (`None` when unset).
pub fn application_folders(
    home: Option<&str>,
    xdg_data_home: Option<&str>,
    xdg_data_dirs: Option<&str>,
) -> (folders: Vec<String>)
    ensures
        folders@.map_values(|f: String| f@) == application_folders_spec(
            data_home_spec(
                match home {
                    Some(h) => Some(h@),
                    None => None,
                },
                match xdg_data_home {
                    Some(d) => Some(d@),
                    None => None,
                },
            ),
            data_dirs_spec(
                match xdg_data_dirs {
                    Some(d) => Some(d@),
                    None => None,
                },
            ),
        ),
{
    proof {
        reveal_strlit("/.local/share");
        reveal_strlit("~/.local/share");
        reveal_strlit("/usr/local/share:/usr/share");
        assert("/.local/share"@ =~= seq!['/', '.', 'l', 'o', 'c', 'a', 'l', '/', 's', 'h', 'a', 'r', 'e']);
        assert("~/.local/share"@ =~= seq![
            '~', '/', '.', 'l', 'o', 'c', 'a', 'l', '/', 's', 'h', 'a', 'r', 'e',
        ]);
        assert("/usr/local/share:/usr/share"@ =~= seq![
            '/', 'u', 's', 'r', '/', 'l', 'o', 'c', 'a', 'l', '/', 's', 'h', 'a', 'r', 'e', ':', '/',
            'u', 's', 'r', '/', 's', 'h', 'a', 'r', 'e',
        ]);
    }
    let data_home: String = match xdg_data_home {
        Some(d) => String::from_str(d),
        None => match home {
            Some(h) => {
                let mut s = String::from_str(h);
                s.append("/.local/share");
                s
            },
            None => String::from_str("~/.local/share"),
        },
    };
    let data_dirs: String = match xdg_data_dirs {
        Some(d) => String::from_str(d),
        None => String::from_str("/usr/local/share:/usr/share"),
    };
    let home_chars = chars_of(data_home.as_str());
    let dirs_chars = chars_of(data_dirs.as_str());
    let mut folders: Vec<String> = Vec::new();
    proof {
        assert(folders@.map_values(|f: String| f@) =~= Seq::<Seq<char>>::empty());
    }
    add_folders(&home_chars, &mut folders);
    add_folders(&dirs_chars, &mut folders);
    proof {
        let f = |d: Seq<char>| applications_folder(d);
        let a = split_on(home_chars@, ':');
        let b = split_on(dirs_chars@, ':');
        assert((a + b).map_values(f) =~= a.map_values(f) + b.map_values(f));
        lemma_dedup_onto_concat(Seq::empty(), a.map_values(f), b.map_values(f));
    }
    folders
}

/// The position of the last `c` in `s`.
pub open spec fn last_index_of(s: Seq<char>, c: char) -> Option<int>
    decreases s.len(),
{
    if s.len() == 0 {
        None
    } else if s.last() == c {
        Some(s.len() - 1)
    } else {
        last_index_of(s.drop_last(), c)
    }
}

/// `desktop`.
pub open spec fn desktop_word() -> Seq<char> {
    seq!['d', 'e', 's', 'k', 't', 'o', 'p']
}

/// A file name's extension, as paths define it, is `desktop`: the text after
/// its last `.`, where that `.` is not the first character.
pub open spec fn has_desktop_extension_spec(file_name: Seq<char>) -> bool {
    match last_index_of(file_name, '.') {
        Some(i) => i > 0 && file_name.skip(i + 1) == desktop_word(),
        None => false,
    }
}

/// Whether a file is a `.desktop` file, going by its name.
pub fn has_desktop_extension(file_name: &str) -> (b: bool)
    ensures
        b == has_desktop_extension_spec(file_name@),
{
    let s = chars_of(file_name);
    let mut i = s.len();
    assert(s@.take(i as int) =~= s@);
    while i > 0 && s[i - 1] != '.'
        invariant
            i <= s@.len(),
            last_index_of(s@, '.') == last_index_of(s@.take(i as int), '.'),
        decreases i,
    {
        assert(s@.take(i - 1) =~= s@.take(i as int).drop_last());
        i -= 1;
    }
    if i <= 1 {
        proof {
            if i == 1 {
                assert(s@.take(1).last() == '.');
            }
        }
        return false;
    }
    assert(s@.take(i as int).last() == '.');
    let ext = string_from_range(&s, i, s.len());
    proof {
        reveal_strlit("desktop");
        assert("desktop"@ =~= desktop_word());
        assert(s@.skip(i as int) =~= s@.subrange(i as int, s@.len() as int));
    }
    str_equals(ext.as_str(), "desktop")
}

impl XdgDesktopEntry {
    /// The entry for a `.desktop` file, from what the file holds: its path,
    /// keywords, `NoDisplay` setting and `Name` (the file's name is shown when
    /// it has none). Entries marked `NoDisplay=true` are left out.
    pub fn try_from(
        path: String,
        keywords: Vec<String>,
        no_display: Option<String>,
        name: Option<String>,
        file_name: String,
    ) -> (entry: Option<XdgDesktopEntry>)
        ensures
            match no_display {
                Some(v) if v@ == seq!['t', 'r', 'u', 'e'] => entry is None,
                _ => entry matches Some(e) && e.path == path && e.keywords == keywords
                    && e.display_name == (match name {
                    Some(n) => n,
                    None => file_name,
                }),
            },
    {
        proof {
            reveal_strlit("true");
            assert("true"@ =~= seq!['t', 'r', 'u', 'e']);
        }
        if let Some(bool_setting) = &no_display {
            if str_equals(bool_setting.as_str(), "true") {
                return None;
            }
        }
        let display_name = match name {
            Some(n) => n,
            None => file_name,
        };
        Some(XdgDesktopEntry { display_name, path, keywords })
    }
}

/// A desktop entry read from disk, and whether it is one of the launcher's
/// own (it sets `GenericLauncherCustom`).
pub struct DesktopCandidate {
    pub entry: XdgDesktopEntry,
    pub is_custom: bool,
}

/// The entries of `s` whose custom flag is `custom`, in order.
pub open spec fn entries_where(s: Seq<DesktopCandidate>, custom: bool) -> Seq<XdgDesktopEntry>
    decreases s.len(),
{
    if s.len() == 0 {
        Seq::empty()
    } else if s.last().is_custom == custom {
        entries_where(s.drop_last(), custom).push(s.last().entry)
    } else {
        entries_where(s.drop_last(), custom)
    }
}

/// Every candidate lands in exactly one of the two lists: the lists hold
/// as many entries as there are candidates, and the entry of each candidate
/// is in the list of its kind, whatever else the entry holds.
pub proof fn lemma_partition_keeps_all(s: Seq<DesktopCandidate>)
    ensures
        entries_where(s, false).len() + entries_where(s, true).len() == s.len(),
        forall|k: int|
            0 <= k < s.len() ==> entries_where(s, #[trigger] s[k].is_custom).contains(s[k].entry),
    decreases s.len(),
{
    if s.len() > 0 {
        let init = s.drop_last();
        lemma_partition_keeps_all(init);
        let last = s.last();
        assert forall|k: int| 0 <= k < s.len() implies entries_where(s, #[trigger] s[k].is_custom).contains(
            s[k].entry,
        ) by {
            let c = s[k].is_custom;
            let r0 = entries_where(init, c);
            let r = entries_where(s, c);
            if k == s.len() - 1 {
                assert(r == r0.push(last.entry));
                assert(r[r0.len() as int] == last.entry);
            } else {
                assert(init[k] == s[k]);
                assert(r0.contains(s[k].entry));
                let j = choose|j: int| 0 <= j < r0.len() && r0[j] == s[k].entry;
                if last.is_custom == c {
                    assert(r == r0.push(last.entry));
                    assert(r[j] == r0[j]);
                } else {
                    assert(r == r0);
                }
            }
        }
    }
}

/// Splits entries into the ordinary ones and the launcher's own, each in
/// the order read.
pub fn partition_entries(candidates: Vec<DesktopCandidate>) -> (r: (
    Vec<XdgDesktopEntry>,
    Vec<XdgDesktopEntry>,
))
    ensures
        r.0@ == entries_where(candidates@, false),
        r.1@ == entries_where(candidates@, true),
        r.0@.len() + r.1@.len() == candidates@.len(),
        forall|k: int|
            0 <= k < candidates@.len() && !candidates@[k].is_custom ==> r.0@.contains(
                candidates@[k].entry,
            ),
        forall|k: int|
            0 <= k < candidates@.len() && candidates@[k].is_custom ==> r.1@.contains(
                candidates@[k].entry,
            ),
{
    proof {
        lemma_partition_keeps_all(candidates@);
    }
    let mut entries: Vec<XdgDesktopEntry> = Vec::new();
    let mut custom_entries: Vec<XdgDesktopEntry> = Vec::new();
    let ghost all = candidates@;
    let n = candidates.len();
    let mut rest = candidates;
    let mut k: usize = 0;
    proof {
        assert(all.take(0) =~= Seq::<DesktopCandidate>::empty());
        assert(all.skip(0) =~= all);
    }
    while rest.len() > 0
        invariant
            k <= all.len(),
            n == all.len(),
            rest@ == all.skip(k as int),
            entries@ == entries_where(all.take(k as int), false),
            custom_entries@ == entries_where(all.take(k as int), true),
        decreases rest@.len(),
    {
        let c = rest.remove(0);
        proof {
            assert(all.skip(k as int).len() == all.len() - k);
            assert(c == all[k as int]);
            assert(all.take(k + 1).drop_last() =~= all.take(k as int));
            assert(all.take(k + 1).last() == all[k as int]);
            assert(all.skip(k + 1) =~= all.skip(k as int).remove(0));
        }
        if c.is_custom {
            custom_entries.push(c.entry);
        } else {
            entries.push(c.entry);
        }
        k += 1;
    }
    proof {
        assert(all.take(k as int) =~= all);
    }
    (entries, custom_entries)
}

} // verus!
