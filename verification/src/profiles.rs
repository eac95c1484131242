//! The rules that a scan profile has to meet.
//!
//! Storage of profiles is the caller's business. What the library decides is
//! whether a profile may be stored, under which file name, what safe mode
//! makes of it, and in which order profiles are listed.

use crate::listing::{arranged, is_stable_order, positions, stable_order};
use crate::models::{profile_views, texts, Profile, ProfileView, ERR_INVALID_PARAMS};
use crate::pattern::{is_match, regex_is_match};
use crate::text::{
    chars_of, concat2, join, joined, lowercased, parse_decimal, parse_unsigned, range_texts,
    split, split_ranges, to_lowercase, trim_range, trimmed,
};
use vstd::prelude::*;
use vstd::string::*;
use vstd::utf8::encode_utf8;

verus! {

/// A name that starts with a letter or digit and goes on with letters,
/// digits, hyphens, underscores and spaces.
pub const PROFILE_NAME: &'static str = r"^[a-zA-Z0-9][a-zA-Z0-9\-_ ]*$";

/// Ports and port ranges of up to five digits, separated by commas.
pub const PORT_RANGE: &'static str = r"^(\d{1,5}(-\d{1,5})?)(,\s*\d{1,5}(-\d{1,5})?)*$";

/// The port that `part` spells, if it spells one between 1 and 65535.
pub open spec fn port_of(part: Seq<char>) -> Option<nat> {
    match parse_unsigned(part, u32::MAX as nat) {
        Some(n) => if 1 <= n <= 65535 {
            Some(n)
        } else {
            None
        },
        None => None,
    }
}

/// Every part of the segment between hyphens spells a port, and where there
/// are two parts the first is not above the second.
pub open spec fn segment_ok(segment: Seq<char>) -> bool {
    let parts = split(segment, '-');
    &&& forall|j: int| 0 <= j < parts.len() ==> port_of(#[trigger] parts[j]) is Some
    &&& parts.len() == 2 ==> port_of(parts[0])->0 <= port_of(parts[1])->0
}

/// Every segment between commas, trimmed, is in order.
pub open spec fn segments_ok(range: Seq<char>) -> bool {
    forall|i: int|
        0 <= i < split(range, ',').len() ==> segment_ok(trimmed(#[trigger] split(range, ',')[i]))
}

/// The port range has the shape of [`PORT_RANGE`] and each of its segments is
/// in order.
pub open spec fn port_range_is_valid(range: Seq<char>) -> bool {
    regex_is_match(PORT_RANGE@, range) && segments_ok(range)
}

fn check_segment(v: &Vec<char>, from: usize, to: usize) -> (r: bool)
    requires
        from <= to <= v@.len(),
    ensures
        r == segment_ok(v@.subrange(from as int, to as int)),
{
    let ghost segment = v@.subrange(from as int, to as int);
    let parts = split_ranges(v, from, to, '-');
    let ghost pieces = split(segment, '-');
    let mut values: Vec<u32> = Vec::new();
    let n: usize = parts.len();
    let mut j: usize = 0;
    while j < n
        invariant
            j <= n,
            n == parts@.len(),
            values@.len() == j,
            segment == v@.subrange(from as int, to as int),
            pieces == range_texts(v@, parts@),
            pieces == split(segment, '-'),
            forall|k: int|
                0 <= k < parts@.len() ==> from <= (#[trigger] parts@[k]).0 && parts@[k].0
                    <= parts@[k].1 && parts@[k].1 <= to,
            to <= v@.len(),
            forall|k: int| 0 <= k < j ==> port_of(#[trigger] pieces[k]) == Some(values@[k] as nat),
        decreases n - j,
    {
        let part = parts[j];
        assert(pieces[j as int] == v@.subrange(part.0 as int, part.1 as int));
        match parse_decimal(v, part.0, part.1, u32::MAX) {
            Some(value) => {
                if value < 1 || value > 65535 {
                    assert(port_of(pieces[j as int]) is None);
                    return false;
                }
                values.push(value);
            },
            None => {
                assert(port_of(pieces[j as int]) is None);
                return false;
            },
        }
        j += 1;
    }
    if n == 2 {
        values[0] <= values[1]
    } else {
        true
    }
}

/// Whether a port range is well formed: single ports and ranges between 1 and
/// 65535, separated by commas, no range running backwards.
pub fn validate_port_range(range: &str) -> (r: bool)
    ensures
        r == port_range_is_valid(range@),
{
    if !is_match(PORT_RANGE, range) {
        return false;
    }
    let v = chars_of(range);
    assert(v@.subrange(0, v@.len() as int) =~= v@);
    let segments = split_ranges(&v, 0, v.len(), ',');
    let ghost pieces = split(range@, ',');
    let n: usize = segments.len();
    let mut i: usize = 0;
    while i < n
        invariant
            i <= n,
            n == segments@.len(),
            v@ == range@,
            pieces == range_texts(v@, segments@),
            pieces == split(range@, ','),
            forall|k: int|
                0 <= k < segments@.len() ==> (#[trigger] segments@[k]).0 <= segments@[k].1
                    && segments@[k].1 <= v@.len(),
            forall|k: int| 0 <= k < i ==> segment_ok(trimmed(#[trigger] pieces[k])),
        decreases n - i,
    {
        let segment = segments[i];
        assert(pieces[i as int] == v@.subrange(segment.0 as int, segment.1 as int));
        let bounds = trim_range(&v, segment.0, segment.1);
        if !check_segment(&v, bounds.0, bounds.1) {
            return false;
        }
        i += 1;
    }
    true
}

/// The length of `s` in bytes of UTF-8, as `str::len` reports it.
pub open spec fn byte_length(s: Seq<char>) -> usize {
    encode_utf8(s).len() as usize
}

/// What is wrong with the name of a profile, if anything.
pub open spec fn name_error(name: Seq<char>) -> Option<Seq<char>> {
    if name.len() == 0 {
        Some("Name cannot be empty"@)
    } else if byte_length(name) > 64 {
        Some("Name must be 64 characters or less"@)
    } else if !regex_is_match(PROFILE_NAME@, name) {
        Some(
            "Name must start with alphanumeric and contain only alphanumeric, hyphens, underscores, and spaces"@,
        )
    } else {
        None
    }
}

/// What is wrong with the port range of a profile, if anything.
pub open spec fn port_range_error(range: Seq<char>) -> Option<Seq<char>> {
    if range.len() == 0 {
        Some("Port range cannot be empty"@)
    } else if !port_range_is_valid(range) {
        Some(
            "Invalid port range format. Use: single port (80), range (1-1024), or comma-separated (21,22,80,443)"@,
        )
    } else {
        None
    }
}

/// What is wrong with the timeout of a profile, if anything.
pub open spec fn timeout_error(timeout: u32) -> Option<Seq<char>> {
    if timeout < 100 || timeout > 60000 {
        Some("Timeout must be between 100 and 60000 milliseconds"@)
    } else {
        None
    }
}

/// What is wrong with the chunk size of a profile, if anything.
pub open spec fn chunk_size_error(chunk_size: u32) -> Option<Seq<char>> {
    if chunk_size < 1 || chunk_size > 500 {
        Some("Chunk size must be between 1 and 500"@)
    } else {
        None
    }
}

/// `list`, then the error if there is one.
pub open spec fn with_error(list: Seq<Seq<char>>, error: Option<Seq<char>>) -> Seq<Seq<char>> {
    match error {
        Some(e) => list.push(e),
        None => list,
    }
}

/// Everything that is wrong with a profile: at most one complaint each about
/// its name, its port range, its timeout and its chunk size, in that order.
pub open spec fn validation_errors(p: ProfileView) -> Seq<Seq<char>> {
    with_error(
        with_error(
            with_error(with_error(Seq::empty(), name_error(p.name)), port_range_error(p.port_range)),
            timeout_error(p.timeout),
        ),
        chunk_size_error(p.chunk_size),
    )
}

/// What safe mode makes of a profile: at most 50 ports at a time, at least a
/// second of patience, and no security audit.
pub open spec fn made_safe(p: ProfileView) -> ProfileView {
    ProfileView {
        chunk_size: if p.chunk_size > 50 {
            50
        } else {
            p.chunk_size
        },
        timeout: if p.timeout < 1000 {
            1000
        } else {
            p.timeout
        },
        security_audit: false,
        ..p
    }
}

/// Holds a profile to the limits of safe mode.
pub fn enforce_safe_mode(profile: &mut Profile)
    ensures
        final(profile)@ == made_safe(old(profile)@),
{
    if profile.chunk_size > 50 {
        profile.chunk_size = 50;
    }
    if profile.timeout < 1000 {
        profile.timeout = 1000;
    }
    profile.security_audit = false;
}

/// The profile as it is to be stored: held to the limits of safe mode if it
/// asks for safe mode, unchanged otherwise.
pub open spec fn as_stored(p: ProfileView) -> ProfileView {
    if p.safe_mode {
        made_safe(p)
    } else {
        p
    }
}

fn note(errors: &mut Vec<String>, message: &str)
    ensures
        texts(final(errors)@) == texts(old(errors)@).push(message@),
{
    let line = message.to_owned();
    assert(texts(errors@.push(line)) =~= texts(errors@).push(message@));
    errors.push(line);
}

/// The keys by which profiles are listed: their names in lowercase.
pub open spec fn name_keys(profiles: Seq<ProfileView>) -> Seq<Seq<char>> {
    Seq::new(profiles.len(), |i: int| lowercased(profiles[i].name))
}

/// The keeper of the rules for scan profiles.
#[derive(Debug)]
pub struct ProfileManager {}

impl ProfileManager {
    /// A keeper of the rules.
    pub fn new() -> (r: Self) {
        ProfileManager {}
    }

    /// The name of the file that holds the profile `name`.
    pub open spec fn file_name_of(name: Seq<char>) -> Seq<char> {
        name + ".json"@
    }

    /// The name of the file that holds the profile `name`.
    pub fn file_name(&self, name: &str) -> (r: String)
        ensures
            r@ == Self::file_name_of(name@),
    {
        concat2(name, ".json")
    }

    /// Checks a profile. A profile without fault gives an empty list; a
    /// profile with faults gives the code for invalid parameters and the
    /// complaints of [`validation_errors`], joined by `"; "`.
    pub fn validate(&self, profile: &Profile) -> (r: Result<Vec<String>, (i32, String)>)
        ensures
            match r {
                Ok(list) => validation_errors(profile@).len() == 0 && list@.len() == 0,
                Err(e) => validation_errors(profile@).len() > 0 && e.0 == ERR_INVALID_PARAMS
                    && e.1@ == joined(validation_errors(profile@), "; "@),
            },
    {
        let mut errors: Vec<String> = Vec::new();
        assert(texts(errors@) =~= Seq::<Seq<char>>::empty());
        let name = profile.name.as_str();
        if name.is_empty() {
            note(&mut errors, "Name cannot be empty");
        } else if name.len() > 64 {
            note(&mut errors, "Name must be 64 characters or less");
        } else if !is_match(PROFILE_NAME, name) {
            note(
                &mut errors,
                "Name must start with alphanumeric and contain only alphanumeric, hyphens, underscores, and spaces",
            );
        }
        let range = profile.port_range.as_str();
        if range.is_empty() {
            note(&mut errors, "Port range cannot be empty");
        } else if !validate_port_range(range) {
            note(
                &mut errors,
                "Invalid port range format. Use: single port (80), range (1-1024), or comma-separated (21,22,80,443)",
            );
        }
        if profile.timeout < 100 || profile.timeout > 60000 {
            note(&mut errors, "Timeout must be between 100 and 60000 milliseconds");
        }
        if profile.chunk_size < 1 || profile.chunk_size > 500 {
            note(&mut errors, "Chunk size must be between 1 and 500");
        }
        assert(texts(errors@) == validation_errors(profile@));
        if errors.len() > 0 {
            Err((ERR_INVALID_PARAMS, join(&errors, "; ")))
        } else {
            Ok(errors)
        }
    }

    /// Checks a profile and makes it ready to be stored: a profile with faults
    /// gives the error of [`ProfileManager::validate`], a profile without
    /// fault comes back as [`as_stored`] has it.
    pub fn prepare(&self, profile: Profile) -> (r: Result<Profile, (i32, String)>)
        ensures
            match r {
                Ok(stored) => validation_errors(profile@).len() == 0 && stored@ == as_stored(
                    profile@,
                ),
                Err(e) => validation_errors(profile@).len() > 0 && e.0 == ERR_INVALID_PARAMS
                    && e.1@ == joined(validation_errors(profile@), "; "@),
            },
    {
        match self.validate(&profile) {
            Ok(_) => {
                let mut stored = profile;
                if stored.safe_mode {
                    enforce_safe_mode(&mut stored);
                }
                Ok(stored)
            },
            Err(e) => Err(e),
        }
    }
    /// The profiles in the order of listing: by name without regard to case,
    /// profiles of equal name in the order in which they came.
    pub fn arrange(&self, profiles: Vec<Profile>) -> (r: Vec<Profile>)
        ensures
            exists|order: Seq<int>|
                is_stable_order(order, name_keys(profile_views(profiles@)), false)
                    && profile_views(r@) == arranged(profile_views(profiles@), order),
    {
        let ghost views = profile_views(profiles@);
        let n: usize = profiles.len();
        let mut keys: Vec<String> = Vec::new();
        let mut i: usize = 0;
        while i < n
            invariant
                i <= n,
                n == profiles@.len(),
                keys@.len() == i,
                forall|k: int| 0 <= k < i ==> (#[trigger] keys@[k])@ == lowercased(profiles@[k]@.name),
            decreases n - i,
        {
            keys.push(to_lowercase(profiles[i].name.as_str()));
            i += 1;
        }
        assert(texts(keys@) =~= name_keys(views));
        let order = stable_order(&keys, false);
        let mut out: Vec<Profile> = Vec::new();
        let mut k: usize = 0;
        while k < n
            invariant
                k <= n,
                n == profiles@.len(),
                n == order@.len(),
                out@.len() == k,
                forall|x: int| 0 <= x < order@.len() ==> (#[trigger] order@[x]) < n,
                forall|x: int| 0 <= x < k ==> (#[trigger] out@[x])@ == profiles@[order@[x] as int]@,
            decreases n - k,
        {
            out.push(profiles[order[k]].clone());
            k += 1;
        }
        assert(profile_views(out@) =~= arranged(views, positions(order@)));
        out
    }
}

} // verus!
