//! The profiles that settings are kept in.

use vstd::prelude::*;

use crate::apo::export_apo_eq;
use crate::apo;
use crate::eq::EQBand;
use crate::eq::EqualiserBandConfig;
use crate::messages::Message;
use crate::presets::FactoryProfile;
use crate::presets;
use crate::sorting::sort_texts;
use crate::sorting;
use crate::text::chars_of;
use crate::text::same_ignoring_case;
use crate::text::string_of;
use crate::text::trimmed;
use crate::text;
use crate::text_laws;

verus! {

/// Settings that are kept under a name.
#[derive(Debug)]
pub struct AudioProfile {
    pub schema_version: u32,
    pub name: String,
    pub settings: Vec<Message>,
}

impl Default for AudioProfile {
    fn default() -> (r: AudioProfile)
        ensures
            r.schema_version == 1,
            r.name@ == "Default"@,
            r.settings@ == Seq::<Message>::empty(),
    {
        AudioProfile { schema_version: 1, name: "Default".to_owned(), settings: Vec::new() }
    }
}

/// Where profiles are kept and how they are named.
pub struct ProfileManager;

/// The name of the file that keeps the settings of a profile, in its directory.
pub const PROFILE_FILE: &'static str = "profile.json";

/// The name of the file that keeps the bands of the microphone, in the directory of a profile.
pub const MIC_EQ_FILE: &'static str = "mic_eq.txt";

/// The name of the file that keeps the name of the profile in use, below the configuration.
pub const ACTIVE_FILE: &'static str = "active_profile.txt";

/// Whether a character may not stand in the name of a file.
pub open spec fn forbidden(c: char) -> bool {
    c == '/' || c == '\\' || c == ':' || c == '*' || c == '?' || c == '"' || c == '<' || c == '>'
        || c == '|'
}

/// What stands for a character in the name of a file.
pub open spec fn safe_character(c: char) -> char {
    if forbidden(c) {
        '_'
    } else {
        c
    }
}

/// The name of the file for `name`.
pub open spec fn sanitized(name: Seq<char>) -> Seq<char> {
    name.map_values(|c: char| safe_character(c))
}

/// Replaces every character of `name` that may not stand in the name of a file by `_`.
pub fn sanitize_filename(name: &str) -> (r: String)
    ensures
        r@ == sanitized(name@),
{
    let chars = chars_of(name);
    let mut r = String::new();
    let mut i: usize = 0;
    assert(r@ =~= sanitized(name@.take(0)));
    while i < chars.len()
        invariant
            i <= chars@.len(),
            chars@ == name@,
            r@ == sanitized(name@.take(i as int)),
        decreases chars@.len() - i,
    {
        let c: char = chars[i];
        match c {
            '/' | '\\' | ':' | '*' | '?' | '"' | '<' | '>' | '|' => r.push('_'),
            _ => r.push(c),
        }
        assert(r@ =~= sanitized(name@.take(i + 1)));
        i = i + 1;
    }
    assert(name@.take(i as int) =~= name@);
    r
}

/// The name of a file is as long as the name that it was made from and holds no character that
/// it may not hold.
pub proof fn sanitized_is_safe(name: Seq<char>)
    ensures
        sanitized(name).len() == name.len(),
        forall|i: int| 0 <= i < name.len() ==> !forbidden(#[trigger] sanitized(name)[i]),
{
}

/// A name without characters that a file's name may not hold is kept as it is; so is the name of
/// a file.
pub proof fn safe_names_are_kept(name: Seq<char>)
    ensures
        (forall|i: int| 0 <= i < name.len() ==> !forbidden(#[trigger] name[i])) ==> sanitized(name)
            == name,
        sanitized(sanitized(name)) == sanitized(name),
{
    if forall|i: int| 0 <= i < name.len() ==> !forbidden(#[trigger] name[i]) {
        assert(sanitized(name) =~= name);
    }
    assert(sanitized(sanitized(name)) =~= sanitized(name));
}

/// Whether `name` is that of the profile that cannot be deleted, in letters of either case.
pub open spec fn names_default(name: Seq<char>) -> bool {
    text::ascii_lowercase(name) == text::ascii_lowercase("Default"@)
}

/// Whether one of `names` is that of the profile that cannot be deleted.
pub open spec fn has_default(names: Seq<Seq<char>>) -> bool {
    exists|i: int| 0 <= i < names.len() && names_default(#[trigger] names[i])
}

/// The names of the profiles when the directories `names` were found.
pub open spec fn with_default(names: Seq<Seq<char>>) -> Seq<Seq<char>> {
    if has_default(names) {
        names
    } else {
        names.push("Default"@)
    }
}

/// The name of the profile in use when the file that keeps it holds `content`, if there is one.
pub open spec fn active_name(content: Option<Seq<char>>) -> Seq<char> {
    match content {
        Some(c) => if text::trim(c).len() > 0 {
            text::trim(c)
        } else {
            "Default"@
        },
        None => "Default"@,
    }
}

/// The profiles that come with the program, in order.
pub open spec fn factory_profiles() -> Seq<FactoryProfile> {
    seq![
        FactoryProfile::Broadcast,
        FactoryProfile::GamingAndDiscord,
        FactoryProfile::WarmVoiceover,
        FactoryProfile::HighClarity,
    ]
}

/// Whether `r` is what is kept of a factory profile.
pub open spec fn keeps(r: AudioProfile, p: FactoryProfile) -> bool {
    &&& r.schema_version == 1
    &&& r.name@ == p.label()
    &&& r.settings@ == presets::factory_settings(p.sets())
}

/// The factory profiles, of the first `upto`, that are not there yet.
pub open spec fn missing_profiles(present: Seq<bool>, upto: int) -> Seq<FactoryProfile>
    decreases upto,
{
    if upto <= 0 {
        seq![]
    } else if present[upto - 1] {
        missing_profiles(present, upto - 1)
    } else {
        missing_profiles(present, upto - 1).push(factory_profiles()[upto - 1])
    }
}

/// The names of the directories below the configuration that hold a profile.
pub open spec fn profile_path(name: Seq<char>) -> Seq<Seq<char>> {
    seq!["profiles"@, sanitized(name)]
}

/// The names below the configuration of the file that a profile is read from, if it `exists`.
pub open spec fn loaded_from(name: Seq<char>, exists: bool) -> Option<Seq<Seq<char>>> {
    if exists {
        Some(profile_path(name).push(PROFILE_FILE@))
    } else {
        None
    }
}

/// The names below the configuration of the directories that go when a profile is deleted, if it
/// may be.
pub open spec fn deleted_at(name: Seq<char>) -> Option<Seq<Seq<char>>> {
    if names_default(name) {
        None
    } else {
        Some(profile_path(name))
    }
}

/// What is written of the bands of the microphone when a profile is saved.
pub open spec fn saved_bands(bands: Seq<(EQBand, EqualiserBandConfig)>) -> Seq<char> {
    apo::exported(bands, "Microphone"@)
}

/// What is written when a profile is saved.
#[derive(Debug)]
pub struct ProfileFiles {
    /// The names of the directories below the configuration, the outermost first.
    pub directory: Vec<String>,
    /// What `mic_eq.txt` holds, if it is written.
    pub mic_eq: Option<String>,
}

/// Why a profile was not deleted.
#[derive(Clone, Copy, Debug, PartialEq, Eq, Structural)]
pub enum DeleteError {
    /// It is the one that there always is.
    IsDefault,
}

impl DeleteError {
    /// What the user is told.
    pub open spec fn text(self) -> Seq<char> {
        "Cannot delete the Default profile"@
    }

    /// What the user is told.
    pub fn message(self) -> (r: &'static str)
        ensures
            r@ == self.text(),
    {
        "Cannot delete the Default profile"
    }
}

impl ProfileManager {
    /// The names of the directories below the configuration that hold all profiles.
    pub fn get_profiles_dir() -> (r: Vec<String>)
        ensures
            text::views(r@) == seq!["profiles"@],
    {
        let mut r: Vec<String> = Vec::new();
        r.push("profiles".to_owned());
        assert(text::views(r@) =~= seq!["profiles"@]);
        r
    }

    /// The names of the directories below the configuration that hold the profile.
    pub fn get_profile_dir(profile_name: &str) -> (r: Vec<String>)
        ensures
            text::views(r@) == profile_path(profile_name@),
    {
        let mut r = Self::get_profiles_dir();
        let ghost outer = text::views(r@);
        r.push(sanitize_filename(profile_name));
        assert(text::views(r@) =~= outer.push(sanitized(profile_name@)));
        assert(text::views(r@) =~= profile_path(profile_name@));
        r
    }

    /// The factory profiles that are to be written, when those of them are there that `present`
    /// says, in the order of `factory_profiles`.
    pub fn ensure_default_profiles(present: &[bool; 4]) -> (r: Vec<AudioProfile>)
        ensures
            r@.len() == missing_profiles(present@, 4).len(),
            forall|i: int|
                0 <= i < r@.len() ==> keeps(#[trigger] r@[i], missing_profiles(present@, 4)[i]),
    {
        let all = [
            FactoryProfile::Broadcast,
            FactoryProfile::GamingAndDiscord,
            FactoryProfile::WarmVoiceover,
            FactoryProfile::HighClarity,
        ];
        assert(all@ =~= factory_profiles());
        let mut r: Vec<AudioProfile> = Vec::new();
        let mut k: usize = 0;
        while k < 4
            invariant
                k <= 4,
                all@ == factory_profiles(),
                r@.len() == missing_profiles(present@, k as int).len(),
                forall|i: int|
                    0 <= i < r@.len() ==> keeps(
                        #[trigger] r@[i],
                        missing_profiles(present@, k as int)[i],
                    ),
            decreases 4 - k,
        {
            if !present[k] {
                let p = all[k];
                r.push(
                    AudioProfile {
                        schema_version: 1,
                        name: p.name().to_owned(),
                        settings: p.definition().settings(),
                    },
                );
            }
            k = k + 1;
        }
        r
    }

    /// The names of the profiles, in order, when `names` are the directories of profiles.
    pub fn list_profiles(names: Vec<String>) -> (r: Vec<String>)
        ensures
            sorting::in_order(text::views(r@)),
            text::views(r@).to_multiset() == with_default(text::views(names@)).to_multiset(),
    {
        let ghost found = text::views(names@);
        let mut i: usize = 0;
        while i < names.len()
            invariant
                i <= names@.len(),
                found == text::views(names@),
                forall|j: int| 0 <= j < i ==> !names_default(#[trigger] found[j]),
            decreases names@.len() - i,
        {
            if same_ignoring_case(names[i].as_str(), "Default") {
                assert(names_default(found[i as int]));
                return sort_texts(names);
            }
            i = i + 1;
        }
        let mut list = names;
        list.push("Default".to_owned());
        assert(text::views(list@) =~= found.push("Default"@));
        sort_texts(list)
    }

    /// The name of the profile in use, when the file that keeps it holds `content`.
    pub fn get_active_profile_name(content: Option<&str>) -> (r: String)
        ensures
            r@ == active_name(
                match content {
                    Some(c) => Some(c@),
                    None => None,
                },
            ),
    {
        if let Some(c) = content {
            let chars = chars_of(c);
            let name = trimmed(chars.as_slice());
            if name.len() > 0 {
                return string_of(name);
            }
        }
        "Default".to_owned()
    }

    /// What the file that keeps the name of the profile in use is to hold.
    pub fn set_active_profile_name(name: &str) -> (r: String)
        ensures
            r@ == sanitized(name@),
    {
        sanitize_filename(name)
    }

    /// The names below the configuration of the file that the profile is read from, if it is there.
    pub fn load_profile(profile_name: &str, exists: bool) -> (r: Option<Vec<String>>)
        ensures
            match r {
                Some(path) => loaded_from(profile_name@, exists) == Some(text::views(path@)),
                None => loaded_from(profile_name@, exists) is None,
            },
    {
        if !exists {
            return None;
        }
        let mut path = Self::get_profile_dir(profile_name);
        let ghost outer = text::views(path@);
        path.push(PROFILE_FILE.to_owned());
        assert(text::views(path@) =~= outer.push(PROFILE_FILE@));
        Some(path)
    }

    /// What is written to save a profile under `profile_name` without its bands.
    pub fn save_profile(profile_name: &str) -> (r: ProfileFiles)
        ensures
            text::views(r.directory@) == profile_path(profile_name@),
            r.mic_eq is None,
    {
        Self::save_profile_with_apo(profile_name, None)
    }

    /// What is written to save a profile under `profile_name` with the bands of the microphone.
    pub fn save_profile_with_apo(
        profile_name: &str,
        mic_bands: Option<&[(EQBand, EqualiserBandConfig)]>,
    ) -> (r: ProfileFiles)
        ensures
            text::views(r.directory@) == profile_path(profile_name@),
            match mic_bands {
                Some(bands) => r.mic_eq is Some && r.mic_eq->0@ == saved_bands(bands@),
                None => r.mic_eq is None,
            },
    {
        let directory = Self::get_profile_dir(profile_name);
        let mic_eq = match mic_bands {
            Some(bands) => Some(export_apo_eq(bands, "Microphone")),
            None => None,
        };
        ProfileFiles { directory, mic_eq }
    }

    /// The names of the directories below the configuration that are to be deleted, if the profile
    /// may be.
    pub fn delete_profile(profile_name: &str) -> (r: Result<Vec<String>, DeleteError>)
        ensures
            match r {
                Ok(path) => deleted_at(profile_name@) == Some(text::views(path@)),
                Err(e) => deleted_at(profile_name@) is None && e == DeleteError::IsDefault,
            },
    {
        if same_ignoring_case(profile_name, "Default") {
            return Err(DeleteError::IsDefault);
        }
        Ok(Self::get_profile_dir(profile_name))
    }
}

/// Whether `left` are the directories of `names` without that of the profile `name`.
pub open spec fn left_after(
    left: Seq<Seq<char>>,
    names: Seq<Seq<char>>,
    name: Seq<char>,
) -> bool {
    forall|n: Seq<char>|
        #[trigger] left.contains(n) <==> names.contains(n) && n != sanitized(name)
}

proof fn sanitized_names_no_default(name: Seq<char>)
    requires
        !names_default(name),
    ensures
        !names_default(sanitized(name)),
{
    let safe = sanitized(name);
    reveal_strlit("Default");
    if names_default(safe) {
        let low = text::ascii_lowercase("Default"@);
        assert(text::ascii_lowercase(safe).len() == 7);
        assert forall|i: int| 0 <= i < name.len() implies name[i] == safe[i] by {
            assert(text::ascii_lowercase(safe)[i] == low[i]);
            assert(low[i] == text::ascii_lower("Default"@[i]));
            assert(safe[i] != '_');
        }
        assert(name =~= safe);
    }
}

/// A profile that may be deleted, and whose directory is gone, is neither listed nor loaded any
/// more. Every other profile has a directory of its own, is listed as before and loaded as before.
pub proof fn deleted_profile_is_gone(
    name: Seq<char>,
    names: Seq<Seq<char>>,
    left: Seq<Seq<char>>,
    listed: Seq<Seq<char>>,
    other: Seq<char>,
)
    requires
        !names_default(name),
        left_after(left, names, name),
        listed.to_multiset() == with_default(left).to_multiset(),
        sanitized(other) != sanitized(name),
    ensures
        deleted_at(name) == Some(profile_path(name)),
        !listed.contains(sanitized(name)),
        loaded_from(name, left.contains(sanitized(name))) is None,
        profile_path(other) != profile_path(name),
        listed.contains(sanitized(other)) <==> with_default(names).contains(sanitized(other)),
        loaded_from(other, left.contains(sanitized(other))) == loaded_from(
            other,
            names.contains(sanitized(other)),
        ),
{
    let gone = sanitized(name);
    let kept = sanitized(other);
    sanitized_names_no_default(name);
    assert(profile_path(other)[1] == kept && profile_path(name)[1] == gone);
    listed.to_multiset_ensures();
    with_default(left).to_multiset_ensures();
    let all = with_default(left).to_multiset();
    assert(listed.contains(gone) == (all.count(gone) > 0));
    assert(listed.contains(kept) == (all.count(kept) > 0));
    assert(has_default(left) == has_default(names)) by {
        if has_default(left) {
            let i = choose|i: int| 0 <= i < left.len() && names_default(#[trigger] left[i]);
            assert(left.contains(left[i]));
            let k = choose|k: int| 0 <= k < names.len() && names[k] == left[i];
            assert(names_default(names[k]));
        }
        if has_default(names) {
            let i = choose|i: int| 0 <= i < names.len() && names_default(#[trigger] names[i]);
            assert(names.contains(names[i]));
            assert(left.contains(names[i]));
            let k = choose|k: int| 0 <= k < left.len() && left[k] == names[i];
            assert(names_default(left[k]));
        }
    }
    pushed_holds(left, gone);
    pushed_holds(left, kept);
    pushed_holds(names, kept);
}

proof fn pushed_holds(names: Seq<Seq<char>>, n: Seq<char>)
    ensures
        names.push("Default"@).contains(n) <==> names.contains(n) || n == "Default"@,
{
    let more = names.push("Default"@);
    if names.contains(n) {
        let k = choose|k: int| 0 <= k < names.len() && names[k] == n;
        assert(more[k] == n);
    }
    assert(more[names.len() as int] == "Default"@);
    if more.contains(n) {
        let k = choose|k: int| 0 <= k < more.len() && more[k] == n;
        if k < names.len() {
            assert(names[k] == n);
        }
    }
}

/// There is always a profile with the name that cannot be deleted.
pub proof fn default_is_listed(names: Seq<Seq<char>>)
    ensures
        has_default(with_default(names)),
        forall|i: int| 0 <= i < names.len() ==> with_default(names).contains(#[trigger] names[i]),
{
    if !has_default(names) {
        assert(with_default(names)[names.len() as int] == "Default"@);
    }
    assert forall|i: int| 0 <= i < names.len() implies with_default(names).contains(
        #[trigger] names[i],
    ) by {
        assert(with_default(names)[i] == names[i]);
    }
}

/// The name that was set comes back, but for the characters that a file's name may not hold and
/// the white space around it; where nothing is left of it, the profile that there always is comes
/// back.
pub proof fn active_name_comes_back(name: Seq<char>)
    ensures
        active_name(Some(sanitized(name))) == (if text::trim(sanitized(name)).len() > 0 {
            text::trim(sanitized(name))
        } else {
            "Default"@
        }),
        active_name(Some(active_name(Some(sanitized(name))))) == active_name(
            Some(sanitized(name)),
        ),
{
    text_laws::trim_twice(sanitized(name));
    reveal_strlit("Default");
    assert(text::trim("Default"@) =~= "Default"@);
}

} // verus!
