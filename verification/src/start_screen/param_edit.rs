//! Decisions of the parameter editor: when the list of distribution files is
//! read again, and which files belong in it.

use vstd::prelude::*;

use crate::text::{chars_of, matches_from};

verus! {

broadcast use vstd::string::group_string_axioms;

/// How many frames pass between two refreshes of the file list.
pub const REFRESH_FRAMES: u16 = 100;

/// The countdown after one frame: a refresh restarts it at [`REFRESH_FRAMES`].
pub open spec fn next_timer(timer: int) -> int {
    if timer == 0 {
        REFRESH_FRAMES as int
    } else {
        timer - 1
    }
}

/// The countdown after `frames` frames, starting from `timer`.
pub open spec fn timer_after(timer: int, frames: nat) -> int
    decreases frames,
{
    if frames == 0 {
        timer
    } else {
        timer_after(next_timer(timer), (frames - 1) as nat)
    }
}

/// Count one frame down on `timer`: the files are due for a refresh when it has
/// reached 0, and then the countdown starts again from [`REFRESH_FRAMES`].
pub fn refresh_due(timer: &mut u16) -> (refresh: bool)
    ensures
        refresh == (*old(timer) == 0),
        *final(timer) == next_timer(*old(timer) as int),
{
    if *timer == 0 {
        *timer = REFRESH_FRAMES;
        true
    } else {
        *timer = *timer - 1;
        false
    }
}

/// The files are refreshed once every `REFRESH_FRAMES + 1` frames: from a
/// countdown `timer` in range, the frame `frames` (counted from 0) refreshes
/// exactly when `frames` is congruent to `timer`.
pub proof fn lemma_refresh_period(timer: int, frames: nat)
    requires
        0 <= timer <= REFRESH_FRAMES,
    ensures
        timer_after(timer, frames) == (timer - frames) % (REFRESH_FRAMES + 1),
        (timer_after(timer, frames) == 0) <==> ((frames as int) % (REFRESH_FRAMES + 1)
            == timer),
    decreases frames,
{
    if frames > 0 {
        lemma_refresh_period(next_timer(timer), (frames - 1) as nat);
        if timer == 0 {
            assert((REFRESH_FRAMES - (frames - 1)) % (REFRESH_FRAMES + 1) == (timer - frames) % (
            REFRESH_FRAMES + 1)) by (nonlinear_arith)
                requires
                    timer == 0,
            ;
        }
    }
    assert(((timer - frames) % (REFRESH_FRAMES + 1) == 0) <==> ((frames as int) % (REFRESH_FRAMES + 1)
        == timer)) by (nonlinear_arith)
        requires
            0 <= timer <= REFRESH_FRAMES,
            frames >= 0,
    ;
}

/// The index of the last `c` in `s`, or -1 where `s` holds no `c`.
pub open spec fn last_index_of(s: Seq<char>, c: char) -> int
    decreases s.len(),
{
    if s.len() == 0 {
        -1
    } else if s.last() == c {
        s.len() - 1
    } else {
        last_index_of(s.drop_last(), c)
    }
}

/// The extension of a file name as `Path::extension` takes it: what follows the
/// last `.`; none where the name holds no `.`, or its only `.` comes first.
pub open spec fn extension(file_name: Seq<char>) -> Option<Seq<char>> {
    let dot = last_index_of(file_name, '.');
    if dot <= 0 {
        None
    } else {
        Some(file_name.subrange(dot + 1, file_name.len() as int))
    }
}

/// A file that holds a distribution method: a `.ron` file other than the
/// settings file `settings.ron`.
pub open spec fn is_distribution_file_name(file_name: Seq<char>) -> bool {
    extension(file_name) == Some("ron"@) && file_name != "settings.ron"@
}

/// `last_index_of` finds the last `c`: -1 exactly when `s` holds no `c`, else
/// an index of `c` with no `c` after it.
proof fn lemma_last_index_of(s: Seq<char>, c: char)
    ensures
        -1 <= last_index_of(s, c) < s.len(),
        last_index_of(s, c) == -1 ==> forall|j: int| 0 <= j < s.len() ==> #[trigger] s[j] != c,
        last_index_of(s, c) >= 0 ==> s[last_index_of(s, c)] == c,
        forall|j: int| last_index_of(s, c) < j < s.len() ==> #[trigger] s[j] != c,
    decreases s.len(),
{
    if s.len() > 0 && s.last() != c {
        lemma_last_index_of(s.drop_last(), c);
        assert forall|j: int| last_index_of(s, c) < j < s.len() implies #[trigger] s[j] != c by {
            if j < s.len() - 1 {
                assert(s[j] == s.drop_last()[j]);
            }
        }
    }
}

/// A file is listed exactly when its name is a non-empty stem followed by
/// `.ron`, and it is not `settings.ron`.
pub proof fn lemma_distribution_file_names(file_name: Seq<char>)
    ensures
        is_distribution_file_name(file_name) <==> {
            &&& file_name.len() > 4
            &&& file_name.subrange(file_name.len() - 4, file_name.len() as int) == ".ron"@
            &&& file_name != "settings.ron"@
        },
{
    reveal_strlit(".ron");
    reveal_strlit("ron");
    let n = file_name.len() as int;
    lemma_last_index_of(file_name, '.');
    let dot = last_index_of(file_name, '.');
    if is_distribution_file_name(file_name) {
        let ext = file_name.subrange(dot + 1, n);
        assert(ext =~= "ron"@);
        assert(n == dot + 4);
        assert(file_name.subrange(n - 4, n) =~= ".ron"@) by {
            assert(file_name[dot] == '.');
            assert(file_name[dot + 1] == ext[0]);
            assert(file_name[dot + 2] == ext[1]);
            assert(file_name[dot + 3] == ext[2]);
        }
    }
    if n > 4 && file_name.subrange(n - 4, n) == ".ron"@ {
        assert(file_name.subrange(n - 4, n)[0] == '.');
        assert(file_name[n - 4] == '.');
        assert(file_name[n - 3] == file_name.subrange(n - 4, n)[1]);
        assert(file_name[n - 2] == file_name.subrange(n - 4, n)[2]);
        assert(file_name[n - 1] == file_name.subrange(n - 4, n)[3]);
        assert(dot == n - 4) by {
            if dot > n - 4 {
                assert(file_name[dot] == '.');
            } else if dot < n - 4 {
                assert(file_name[n - 4] != '.');
            }
        }
        assert(file_name.subrange(dot + 1, n) =~= "ron"@);
    }
}

/// Whether the file called `file_name` belongs in the list of distribution
/// method files: its extension is `ron` and it is not `settings.ron`.
pub fn is_distribution_file(file_name: &str) -> (r: bool)
    ensures
        r == is_distribution_file_name(file_name@),
        r <==> {
            &&& file_name@.len() > 4
            &&& file_name@.subrange(file_name@.len() - 4, file_name@.len() as int) == ".ron"@
            &&& file_name@ != "settings.ron"@
        },
{
    proof {
        lemma_distribution_file_names(file_name@);
    }
    let chars = chars_of(file_name);
    let n = chars.len();
    let mut k: usize = n;
    assert(chars@.take(n as int) =~= chars@);
    while k > 0 && chars[k - 1] != '.'
        invariant
            n == chars@.len(),
            k <= n,
            last_index_of(chars@, '.') == last_index_of(chars@.take(k as int), '.'),
        decreases k,
    {
        assert(chars@.take(k as int).drop_last() =~= chars@.take(k - 1));
        k -= 1;
    }
    proof {
        if k > 0 {
            assert(chars@.take(k as int).last() == '.');
        } else {
            assert(chars@.take(0) =~= Seq::<char>::empty());
        }
    }
    if k <= 1 {
        return false;
    }
    let ron = chars_of("ron");
    let settings = chars_of("settings.ron");
    matches_from(&chars, k, &ron) && !matches_from(&chars, 0, &settings)
}

/// Every `.ron` file with a non-empty stem is listed, except the settings file.
pub proof fn lemma_ron_files_listed(stem: Seq<char>)
    requires
        stem.len() > 0,
        stem != "settings"@,
    ensures
        is_distribution_file_name(stem + ".ron"@),
{
    reveal_strlit(".ron");
    reveal_strlit("ron");
    reveal_strlit("settings");
    reveal_strlit("settings.ron");
    let name = stem + ".ron"@;
    reveal_with_fuel(last_index_of, 5);
    assert(name.drop_last() =~= stem + seq!['.', 'r', 'o']);
    assert(name.drop_last().drop_last() =~= stem + seq!['.', 'r']);
    assert(name.drop_last().drop_last().drop_last() =~= stem + seq!['.']);
    assert(last_index_of(name, '.') == stem.len());
    assert(name.subrange(stem.len() as int + 1, name.len() as int) =~= "ron"@);
    if name == "settings.ron"@ {
        assert(stem =~= name.subrange(0, stem.len() as int));
        assert(stem.len() == 8);
        assert(stem =~= "settings"@);
    }
}

/// The kill distance that the settings take: `Some(kill_dist)` when killing
/// by distance is enabled, `None` when it is not.
pub fn update_kill_dist<D: Copy>(enabled: bool, kill_dist: D, setting: &mut Option<D>)
    ensures
        *final(setting) == (if enabled {
            Some(kill_dist)
        } else {
            None
        }),
{
    if enabled {
        *setting = Some(kill_dist);
    } else {
        *setting = None;
    }
}

} // verus!
