//! GNOME keybindings that collide with the zone accelerators. They are
//! stashed in the settings table and cleared while the daemon runs.
use vstd::prelude::*;
use crate::textutil::{chars_of, decimal, digit_char, push_chars, push_decimal, push_str, string_of};

verus! {

/// A conflicting binding: (schema, gsettings key, stash key).
pub type ConflictEntry = (&'static str, String, String);

/// The `open-new-window-application-n` gsettings key.
pub open spec fn app_key(n: nat) -> Seq<char> {
    "open-new-window-application-"@ + decimal(n)
}

/// The stash key of `open-new-window-application-n`.
pub open spec fn app_stash_key(n: nat) -> Seq<char> {
    "gnome_default_open_new_window_application_"@ + decimal(n)
}

/// Every conflicting binding: Super+Left / Super+Right (tiling) and
/// Super+Ctrl+1..9 (launching the n-th favourite).
pub open spec fn conflicts() -> Seq<(Seq<char>, Seq<char>, Seq<char>)> {
    seq![
        ("org.gnome.mutter.keybindings"@, "toggle-tiled-left"@, "gnome_default_tile_left"@),
        ("org.gnome.mutter.keybindings"@, "toggle-tiled-right"@, "gnome_default_tile_right"@),
    ] + Seq::new(
        9,
        |i: int| ("org.gnome.shell.keybindings"@, app_key((i + 1) as nat), app_stash_key((i + 1) as nat)),
    )
}

/// The views of the conflict entries.
pub open spec fn entry_views(v: Seq<ConflictEntry>) -> Seq<(Seq<char>, Seq<char>, Seq<char>)> {
    v.map_values(|e: ConflictEntry| (e.0@, e.1@, e.2@))
}

fn owned(s: &str) -> (r: String)
    ensures
        r@ == s@,
{
    String::from_str(s)
}

fn numbered(prefix: &str, n: u64) -> (r: String)
    ensures
        r@ == prefix@ + decimal(n as nat),
{
    let mut out: Vec<char> = chars_of(prefix);
    push_decimal(&mut out, n);
    string_of(&out)
}

/// (schema, gsettings-key, our-stash-key)
pub fn conflict_entries() -> (v: Vec<ConflictEntry>)
    ensures
        entry_views(v@) == conflicts(),
{
    let mut v: Vec<ConflictEntry> = Vec::new();
    v.push(("org.gnome.mutter.keybindings", owned("toggle-tiled-left"), owned("gnome_default_tile_left")));
    v.push(("org.gnome.mutter.keybindings", owned("toggle-tiled-right"), owned("gnome_default_tile_right")));
    let mut n: u64 = 1;
    while n <= 9
        invariant
            1 <= n <= 10,
            v@.len() == n + 1,
            entry_views(v@) =~= conflicts().take(n + 1),
        decreases 10 - n,
    {
        let ghost before = v@;
        v.push((
            "org.gnome.shell.keybindings",
            numbered("open-new-window-application-", n),
            numbered("gnome_default_open_new_window_application_", n),
        ));
        proof {
            assert(entry_views(v@) =~= entry_views(before).push(conflicts()[n + 1]));
            assert(conflicts().take(n + 2) =~= conflicts().take(n + 1).push(conflicts()[n + 1]));
        }
        n = n + 1;
    }
    assert(conflicts().len() == 11);
    assert(conflicts().take(11) =~= conflicts());
    v
}

/// Whether some conflicting binding has the gsettings key `key`.
pub open spec fn covered(key: Seq<char>) -> bool {
    exists|k: int| 0 <= k < conflicts().len() && (#[trigger] conflicts()[k]).1 == key
}

/// The conflict list covers the two tiling bindings and
/// `open-new-window-application-1` through `-9`.
pub proof fn lemma_conflicts_cover()
    ensures
        exists|k: int| 0 <= k < conflicts().len() && (#[trigger] conflicts()[k]).1 == "toggle-tiled-left"@,
        exists|k: int| 0 <= k < conflicts().len() && (#[trigger] conflicts()[k]).1 == "toggle-tiled-right"@,
        forall|n: nat| 1 <= n <= 9 ==> #[trigger] covered(app_key(n)),
{
    assert(conflicts()[0].1 == "toggle-tiled-left"@);
    assert(conflicts()[1].1 == "toggle-tiled-right"@);
    assert forall|n: nat| 1 <= n <= 9 implies #[trigger] covered(app_key(n)) by {
        assert(conflicts()[(n + 1) as int].1 == app_key(n));
    }
}

/// The conflict list is exactly the two tiling bindings of Mutter and the
/// nine `open-new-window-application-n` bindings of GNOME Shell, each
/// under the schema that owns it and stashed under its own key.
pub proof fn lemma_conflict_entries_exact()
    ensures
        conflicts().len() == 11,
        exists|k: int| 0 <= k < conflicts().len() && #[trigger] conflicts()[k] == (
            "org.gnome.mutter.keybindings"@,
            "toggle-tiled-left"@,
            "gnome_default_tile_left"@,
        ),
        exists|k: int| 0 <= k < conflicts().len() && #[trigger] conflicts()[k] == (
            "org.gnome.mutter.keybindings"@,
            "toggle-tiled-right"@,
            "gnome_default_tile_right"@,
        ),
        forall|n: nat| #![trigger decimal(n)] 1 <= n <= 9 ==> exists|k: int| 0 <= k < conflicts().len() && #[trigger] conflicts()[k] == (
            "org.gnome.shell.keybindings"@,
            "open-new-window-application-"@ + decimal(n),
            "gnome_default_open_new_window_application_"@ + decimal(n),
        ),
{
    assert(conflicts()[0] == ("org.gnome.mutter.keybindings"@, "toggle-tiled-left"@, "gnome_default_tile_left"@));
    assert(conflicts()[1] == ("org.gnome.mutter.keybindings"@, "toggle-tiled-right"@, "gnome_default_tile_right"@));
    assert forall|n: nat| #![trigger decimal(n)] 1 <= n <= 9 implies exists|k: int| 0 <= k < conflicts().len() && #[trigger] conflicts()[k] == (
        "org.gnome.shell.keybindings"@,
        "open-new-window-application-"@ + decimal(n),
        "gnome_default_open_new_window_application_"@ + decimal(n),
    ) by {
        assert(conflicts()[(n + 1) as int] == (
            "org.gnome.shell.keybindings"@,
            "open-new-window-application-"@ + decimal(n),
            "gnome_default_open_new_window_application_"@ + decimal(n),
        ));
    }
}

proof fn lemma_small_decimal(n: nat)
    requires
        n < 10,
    ensures
        decimal(n) == seq![digit_char(n)],
{
}

/// No two conflicting bindings share a stash key.
pub proof fn lemma_stash_keys_unique()
    ensures
        forall|i: int, j: int|
            0 <= i < j < conflicts().len() ==> (#[trigger] conflicts()[i]).2 != (#[trigger] conflicts()[j]).2,
{
    reveal_strlit("gnome_default_tile_left");
    reveal_strlit("gnome_default_tile_right");
    reveal_strlit("gnome_default_open_new_window_application_");
    let c = conflicts();
    assert forall|i: int, j: int| 0 <= i < j < c.len() implies (#[trigger] c[i]).2 != (#[trigger] c[j]).2 by {
        if j >= 2 {
            let nj = (j - 1) as nat;
            lemma_small_decimal(nj);
            assert(c[j].2 == app_stash_key(nj));
            assert(c[j].2.len() == 43);
            if i >= 2 {
                let ni = (i - 1) as nat;
                lemma_small_decimal(ni);
                assert(c[i].2 == app_stash_key(ni));
                assert(c[i].2[42] == digit_char(ni));
                assert(c[j].2[42] == digit_char(nj));
            } else if i == 1 {
                assert(c[i].2.len() == 24);
            } else {
                assert(c[i].2.len() == 23);
            }
        } else {
            assert(c[0].2.len() == 23);
            assert(c[1].2.len() == 24);
        }
    }
}

} // verus!
