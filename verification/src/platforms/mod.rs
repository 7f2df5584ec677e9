//! The supported platforms and the models followed on them.
use vstd::prelude::*;
use crate::text;
use crate::stream::StreamView;
use crate::util;
use crate::config::Settings;
use crate::stream::{Playlist, str_opt};

pub mod bonga;
pub mod c4;
pub mod f4f;
pub mod mfc;
pub mod sc;
pub mod scan;
pub mod scvr;
pub mod soda;

verus! {

broadcast use vstd::string::group_string_axioms;

/// A streaming platform.
#[derive(Debug, Clone, Copy, PartialEq, Eq, Structural, Hash)]
pub enum Platform {
    CB,
    SC,
    SCVR,
    MFC,
    BONGA,
    SODA,
    F4F,
    C4,
}

/// Every platform, in declaration order.
pub open spec fn all_platforms() -> Seq<Platform> {
    seq![
        Platform::CB,
        Platform::SC,
        Platform::SCVR,
        Platform::MFC,
        Platform::BONGA,
        Platform::SODA,
        Platform::F4F,
        Platform::C4,
    ]
}

/// The key under which a platform is written in the configuration file, which is also its
/// variant name.
pub open spec fn platform_name(p: Platform) -> Seq<char> {
    match p {
        Platform::CB => "CB"@,
        Platform::SC => "SC"@,
        Platform::SCVR => "SCVR"@,
        Platform::MFC => "MFC"@,
        Platform::BONGA => "BONGA"@,
        Platform::SODA => "SODA"@,
        Platform::F4F => "F4F"@,
        Platform::C4 => "C4"@,
    }
}

/// The platform whose name is `key`, if any.
pub open spec fn platform_from_name(key: Seq<char>) -> Option<Platform> {
    if key == "CB"@ {
        Some(Platform::CB)
    } else if key == "MFC"@ {
        Some(Platform::MFC)
    } else if key == "SC"@ {
        Some(Platform::SC)
    } else if key == "SCVR"@ {
        Some(Platform::SCVR)
    } else if key == "BONGA"@ {
        Some(Platform::BONGA)
    } else if key == "SODA"@ {
        Some(Platform::SODA)
    } else if key == "F4F"@ {
        Some(Platform::F4F)
    } else if key == "C4"@ {
        Some(Platform::C4)
    } else {
        None
    }
}

/// The site that requests to a platform name as their referer.
pub open spec fn referer_of(p: Platform) -> Seq<char> {
    match p {
        Platform::CB => "https://chaturbate.com/"@,
        Platform::MFC => "https://www.myfreecams.com/"@,
        Platform::SC => "https://stripchat.com/"@,
        Platform::SCVR => "https://vr.stripchat.com/"@,
        Platform::BONGA => "https://bongacams.com/"@,
        Platform::SODA => "https://www.camsoda.com/"@,
        Platform::F4F => "https://www.flirt4free.com/"@,
        Platform::C4 => "https://www.cam4.com/"@,
    }
}

fn name_is(key: &[char], name: &str) -> (r: bool)
    ensures
        r == (key@ == name@),
{
    let n = text::chars_of(name);
    text::chars_eq(key, n.as_slice())
}

impl Platform {
    /// Every platform.
    pub fn list() -> (r: Vec<Platform>)
        ensures
            r@ == all_platforms(),
    {
        let r = vec![
            Platform::CB,
            Platform::SC,
            Platform::SCVR,
            Platform::MFC,
            Platform::BONGA,
            Platform::SODA,
            Platform::F4F,
            Platform::C4,
        ];
        assert(r@ =~= all_platforms());
        r
    }

    /// The platform named by a configuration key.
    pub fn new(key: &str) -> (r: Option<Platform>)
        ensures
            r == platform_from_name(key@),
    {
        let k = text::chars_of(key);
        let k = k.as_slice();
        if name_is(k, "CB") {
            Some(Platform::CB)
        } else if name_is(k, "MFC") {
            Some(Platform::MFC)
        } else if name_is(k, "SC") {
            Some(Platform::SC)
        } else if name_is(k, "SCVR") {
            Some(Platform::SCVR)
        } else if name_is(k, "BONGA") {
            Some(Platform::BONGA)
        } else if name_is(k, "SODA") {
            Some(Platform::SODA)
        } else if name_is(k, "F4F") {
            Some(Platform::F4F)
        } else if name_is(k, "C4") {
            Some(Platform::C4)
        } else {
            None
        }
    }

    /// The platform's variant name, as its `Debug` form writes it.
    pub fn name(&self) -> (r: &'static str)
        ensures
            r@ == platform_name(*self),
    {
        match self {
            Platform::CB => "CB",
            Platform::SC => "SC",
            Platform::SCVR => "SCVR",
            Platform::MFC => "MFC",
            Platform::BONGA => "BONGA",
            Platform::SODA => "SODA",
            Platform::F4F => "F4F",
            Platform::C4 => "C4",
        }
    }

    /// The referer that requests to the platform carry.
    pub fn referer(&self) -> (r: &'static str)
        ensures
            r@ == referer_of(*self),
    {
        match self {
            Platform::CB => "https://chaturbate.com/",
            Platform::MFC => "https://www.myfreecams.com/",
            Platform::SC => "https://stripchat.com/",
            Platform::SCVR => "https://vr.stripchat.com/",
            Platform::BONGA => "https://bongacams.com/",
            Platform::SODA => "https://www.camsoda.com/",
            Platform::F4F => "https://www.flirt4free.com/",
            Platform::C4 => "https://www.cam4.com/",
        }
    }
}

/// Reading a platform's name back gives the platform.
pub proof fn lemma_name_round_trip(p: Platform)
    ensures
        platform_from_name(platform_name(p)) == Some(p),
{
    reveal_strlit("CB");
    reveal_strlit("SC");
    reveal_strlit("SCVR");
    reveal_strlit("MFC");
    reveal_strlit("BONGA");
    reveal_strlit("SODA");
    reveal_strlit("F4F");
    reveal_strlit("C4");
    assert("CB"@ =~= seq!['C', 'B']);
    assert("SC"@ =~= seq!['S', 'C']);
    assert("SCVR"@ =~= seq!['S', 'C', 'V', 'R']);
    assert("MFC"@ =~= seq!['M', 'F', 'C']);
    assert("BONGA"@ =~= seq!['B', 'O', 'N', 'G', 'A']);
    assert("SODA"@ =~= seq!['S', 'O', 'D', 'A']);
    assert("F4F"@ =~= seq!['F', '4', 'F']);
    assert("C4"@ =~= seq!['C', '4']);
    assert("CB"@[0] != "SC"@[0] && "CB"@[1] != "C4"@[1]);
    assert("SCVR"@[1] != "SODA"@[1]);
    assert("MFC"@[0] != "F4F"@[0]);
}


/// Only a platform's own name reads as that platform.
pub proof fn lemma_name_exact(key: Seq<char>)
    ensures
        platform_from_name(key) matches Some(p) ==> key == platform_name(p),
{
}

/// Why a playlist could not be read.
#[derive(Debug, Clone, Copy, PartialEq, Eq, Structural)]
pub enum PlaylistError {
    /// No playlist text has been downloaded.
    NoPlaylist,
    /// The address of an entry cannot be made from the playlist's address.
    NoUrlPrefix,
    /// An entry holds no stream number where one is expected.
    NoStreamId,
    /// The stream number of an entry is not a number that fits.
    BadStreamId,
    /// A time tag is too short to hold a date.
    ShortDateLine,
    /// The date of a time tag does not fall on character boundaries.
    BadDateRange,
    /// An entry comes before any time tag.
    NoDate,
    /// A key tag has too few fields.
    NoMouflonKey,
    /// A key tag names a key that is not known.
    UnknownMouflonKey,
    /// An initialisation-segment tag holds no quoted address.
    BadHeaderLine,
    /// An encrypted entry holds no encrypted name.
    NoEncryptedName,
    /// An encrypted name is not valid base64.
    BadEncryptedName,
    /// There is no playlist reader for the platform.
    Unsupported,
}

/// The text an error is reported with: the reader's own wording where it has one (a short
/// date line, a header line without an address), a description otherwise.
pub open spec fn playlist_error_text(e: PlaylistError) -> Seq<char> {
    match e {
        PlaylistError::NoPlaylist => "no playlist has been downloaded"@,
        PlaylistError::NoUrlPrefix => "no address prefix for a playlist entry"@,
        PlaylistError::NoStreamId => "no stream number in a playlist entry"@,
        PlaylistError::BadStreamId => "invalid stream number in a playlist entry"@,
        PlaylistError::ShortDateLine => "error parsing date from playlist"@,
        PlaylistError::BadDateRange => "date of a time tag splits a character"@,
        PlaylistError::NoDate => "playlist entry before any date"@,
        PlaylistError::NoMouflonKey => "key tag without a key name"@,
        PlaylistError::UnknownMouflonKey => "unknown key name"@,
        PlaylistError::BadHeaderLine => "can not get mp4 header file"@,
        PlaylistError::NoEncryptedName => "no encrypted name in a segment address"@,
        PlaylistError::BadEncryptedName => "encrypted name is not base64"@,
        PlaylistError::Unsupported => "no playlist reader for this platform"@,
    }
}

impl PlaylistError {
    /// The text the error is reported with.
    pub fn message(&self) -> (r: &'static str)
        ensures
            r@ == playlist_error_text(*self),
    {
        match self {
            PlaylistError::NoPlaylist => "no playlist has been downloaded",
            PlaylistError::NoUrlPrefix => "no address prefix for a playlist entry",
            PlaylistError::NoStreamId => "no stream number in a playlist entry",
            PlaylistError::BadStreamId => "invalid stream number in a playlist entry",
            PlaylistError::ShortDateLine => "error parsing date from playlist",
            PlaylistError::BadDateRange => "date of a time tag splits a character",
            PlaylistError::NoDate => "playlist entry before any date",
            PlaylistError::NoMouflonKey => "key tag without a key name",
            PlaylistError::UnknownMouflonKey => "unknown key name",
            PlaylistError::BadHeaderLine => "can not get mp4 header file",
            PlaylistError::NoEncryptedName => "no encrypted name in a segment address",
            PlaylistError::BadEncryptedName => "encrypted name is not base64",
            PlaylistError::Unsupported => "no playlist reader for this platform",
        }
    }
}

/// Reading `lines` with `entry` tests for a leading `#` only lines that can be tested: every
/// line up to the first entry that fails has an ASCII first character or none.
pub open spec fn fold_safe(
    lines: Seq<Seq<char>>,
    entry: spec_fn(Seq<char>) -> Result<(Seq<char>, u32), PlaylistError>,
) -> bool
    decreases lines.len(),
{
    if lines.len() == 0 {
        true
    } else if !text::first_byte_sliceable(lines[0]) {
        false
    } else if text::blank_or_tag(lines[0]) {
        fold_safe(lines.drop_first(), entry)
    } else {
        match entry(lines[0]) {
            Err(_) => true,
            Ok(_) => fold_safe(lines.drop_first(), entry),
        }
    }
}

/// `prefix_username_date`: the file name that a platform gives the recording of a model.
pub open spec fn recording_name(prefix: Seq<char>, username: Seq<char>, date: Seq<char>) -> Seq<
    char,
> {
    prefix + seq!['_'] + username + seq!['_'] + date
}

pub fn recording_name_exec(prefix: &str, username: &[char], date: &[char]) -> (r: Vec<char>)
    ensures
        r@ == recording_name(prefix@, username@, date@),
{
    let mut r = text::chars_of(prefix);
    r.push('_');
    text::push_all(&mut r, username);
    r.push('_');
    text::push_all(&mut r, date);
    assert(r@ =~= recording_name(prefix@, username@, date@));
    r
}

/// The segments of a playlist in which each entry line gives an address and a stream
/// number through `entry`: lines are read in order, tags and blank lines are passed over,
/// and the first entry that fails makes the whole read fail.
pub open spec fn fold_segments(
    lines: Seq<Seq<char>>,
    entry: spec_fn(Seq<char>) -> Result<(Seq<char>, u32), PlaylistError>,
    filename: Seq<char>,
    platform: Platform,
    user_agent: Seq<char>,
) -> Result<Seq<StreamView>, PlaylistError>
    decreases lines.len(),
{
    if lines.len() == 0 {
        Ok(Seq::empty())
    } else {
        match fold_segments(lines.drop_last(), entry, filename, platform, user_agent) {
            Err(e) => Err(e),
            Ok(v) => if text::blank_or_tag(lines.last()) {
                Ok(v)
            } else {
                match entry(lines.last()) {
                    Err(e) => Err(e),
                    Ok((url, id)) => Ok(
                        v.push(
                            crate::stream::new_stream_view(
                                filename,
                                url,
                                None,
                                id,
                                platform,
                                user_agent,
                                None,
                                None,
                            ),
                        ),
                    ),
                }
            },
        }
    }
}

/// The entry lines of a playlist, in order: the lines that are neither blank nor tags.
pub open spec fn entry_lines(ls: Seq<Seq<char>>) -> Seq<Seq<char>>
    decreases ls.len(),
{
    if ls.len() == 0 {
        Seq::empty()
    } else if text::blank_or_tag(ls.last()) {
        entry_lines(ls.drop_last())
    } else {
        entry_lines(ls.drop_last()).push(ls.last())
    }
}

/// What a read made of one segment per entry line holds: when it succeeds, exactly one
/// segment per entry line, in the order of the lines, the `i`th made from the `i`th entry
/// line's address and number; it succeeds when every entry line reads; and when it fails, the
/// error is that of the first entry line that does not read.
pub proof fn lemma_fold_one_per_entry(
    lines: Seq<Seq<char>>,
    entry: spec_fn(Seq<char>) -> Result<(Seq<char>, u32), PlaylistError>,
    filename: Seq<char>,
    platform: Platform,
    user_agent: Seq<char>,
)
    ensures
        ({
            let es = entry_lines(lines);
            &&& fold_segments(lines, entry, filename, platform, user_agent) matches Ok(v) ==> {
                &&& v.len() == es.len()
                &&& forall|i: int| 0 <= i < v.len() ==> entry(#[trigger] es[i]) == Ok::<(Seq<char>, u32), PlaylistError>((v[i].url, v[i].stream_id))
                    && v[i] == crate::stream::new_stream_view(filename, v[i].url, None, v[i].stream_id, platform, user_agent, None, None)
            }
            &&& (forall|i: int| 0 <= i < es.len() ==> entry(#[trigger] es[i]) is Ok) ==> fold_segments(lines, entry, filename, platform, user_agent) is Ok
            &&& fold_segments(lines, entry, filename, platform, user_agent) matches Err(e) ==> exists|i: int| 0 <= i < es.len()
                && entry(#[trigger] es[i]) == Err::<(Seq<char>, u32), PlaylistError>(e)
                && forall|j: int| 0 <= j < i ==> entry(#[trigger] es[j]) is Ok
        }),
    decreases lines.len(),
{
    if lines.len() > 0 {
        let pre = lines.drop_last();
        lemma_fold_one_per_entry(pre, entry, filename, platform, user_agent);
        let es0 = entry_lines(pre);
        let es = entry_lines(lines);
        let l = lines.last();
        if !text::blank_or_tag(l) {
            assert(es == es0.push(l));
            assert forall|i: int| 0 <= i < es0.len() implies es[i] == es0[i] by {}
            if (forall|i: int| 0 <= i < es.len() ==> entry(#[trigger] es[i]) is Ok) {
                assert forall|i: int| 0 <= i < es0.len() implies entry(#[trigger] es0[i]) is Ok by {
                    assert(es[i] == es0[i]);
                }
                assert(entry(es[es0.len() as int]) is Ok);
            }
            match fold_segments(pre, entry, filename, platform, user_agent) {
                Err(e) => {
                    let i = choose|i: int| 0 <= i < es0.len()
                        && entry(#[trigger] es0[i]) == Err::<(Seq<char>, u32), PlaylistError>(e)
                        && forall|j: int| 0 <= j < i ==> entry(#[trigger] es0[j]) is Ok;
                    assert(es[i] == es0[i]);
                    assert forall|j: int| 0 <= j < i implies entry(#[trigger] es[j]) is Ok by {
                        assert(es[j] == es0[j]);
                    }
                },
                Ok(v0) => {
                    match entry(l) {
                        Err(e) => {
                            let i = es0.len() as int;
                            assert(es[i] == l);
                            assert forall|j: int| 0 <= j < i implies entry(#[trigger] es[j]) is Ok by {
                                assert(es[j] == es0[j]);
                            }
                        },
                        Ok(p) => {
                            let v = v0.push(crate::stream::new_stream_view(filename, p.0, None, p.1, platform, user_agent, None, None));
                            assert forall|i: int| 0 <= i < v.len() implies entry(#[trigger] es[i]) == Ok::<(Seq<char>, u32), PlaylistError>((v[i].url, v[i].stream_id))
                                && v[i] == crate::stream::new_stream_view(filename, v[i].url, None, v[i].stream_id, platform, user_agent, None, None) by {
                                if i < v0.len() {
                                    assert(es[i] == es0[i]);
                                    assert(entry(es0[i]) == Ok::<(Seq<char>, u32), PlaylistError>((v0[i].url, v0[i].stream_id)));
                                }
                            }
                        },
                    }
                },
            }
        } else {
            assert(es == es0);
        }
    }
}

pub proof fn lemma_fold_err_stays(
    lines: Seq<Seq<char>>,
    k: int,
    entry: spec_fn(Seq<char>) -> Result<(Seq<char>, u32), PlaylistError>,
    filename: Seq<char>,
    platform: Platform,
    user_agent: Seq<char>,
)
    requires
        0 <= k <= lines.len(),
        fold_segments(lines.take(k), entry, filename, platform, user_agent) is Err,
    ensures
        fold_segments(lines, entry, filename, platform, user_agent) == fold_segments(
            lines.take(k),
            entry,
            filename,
            platform,
            user_agent,
        ),
    decreases lines.len() - k,
{
    if k < lines.len() {
        assert(lines.take(k + 1).drop_last() =~= lines.take(k));
        lemma_fold_err_stays(lines, k + 1, entry, filename, platform, user_agent);
    } else {
        assert(lines.take(k) =~= lines);
    }
}


/// Why the address of a model's playlist could not be found.
#[derive(Debug, Clone, Copy, PartialEq, Eq, Structural)]
pub enum LookupError {
    /// A field that the answer must hold is absent or of another type.
    Missing,
    /// The site knows no such user.
    UserNotFound,
    /// The address of a variant cannot be made from the master playlist's address.
    NoUrlPrefix,
    /// A key tag of a master playlist has too few fields.
    NoMouflonKey,
}

/// The text a lookup error is reported with: the site's own wording for an unknown user, a
/// description otherwise.
pub open spec fn lookup_error_text(e: LookupError) -> Seq<char> {
    match e {
        LookupError::Missing => "a field of the answer is missing"@,
        LookupError::UserNotFound => "user not found"@,
        LookupError::NoUrlPrefix => "no address prefix for a playlist variant"@,
        LookupError::NoMouflonKey => "key tag without a key name"@,
    }
}

impl LookupError {
    /// The text the error is reported with.
    pub fn message(&self) -> (r: &'static str)
        ensures
            r@ == lookup_error_text(*self),
    {
        match self {
            LookupError::Missing => "a field of the answer is missing",
            LookupError::UserNotFound => "user not found",
            LookupError::NoUrlPrefix => "no address prefix for a playlist variant",
            LookupError::NoMouflonKey => "key tag without a key name",
        }
    }
}

/// The variant pickers can test `line` for a leading `#` without splitting a character.
pub open spec fn variant_line_ok(line: Seq<char>) -> bool {
    text::byte_len(line) < 5 || text::is_ascii_char(line[0])
}

/// The first line that names a variant: at least five bytes and no leading `#`.
pub open spec fn first_variant(ls: Seq<Seq<char>>) -> Option<Seq<char>>
    decreases ls.len(),
{
    if ls.len() == 0 {
        None
    } else if text::short_or_tag(ls[0]) {
        first_variant(ls.drop_first())
    } else {
        Some(ls[0])
    }
}

/// Every line that the search for the first variant looks at can be tested.
pub open spec fn first_variant_safe(ls: Seq<Seq<char>>) -> bool
    decreases ls.len(),
{
    if ls.len() == 0 {
        true
    } else {
        variant_line_ok(ls[0]) && (text::short_or_tag(ls[0]) ==> first_variant_safe(ls.drop_first()))
    }
}

pub open spec fn rev_lines(ls: Seq<Seq<char>>) -> Seq<Seq<char>> {
    Seq::new(ls.len(), |k: int| ls[ls.len() - 1 - k])
}

/// The last line that names a variant.
pub open spec fn last_variant(ls: Seq<Seq<char>>) -> Option<Seq<char>> {
    first_variant(rev_lines(ls))
}

/// Every line that the search for the last variant looks at, from the end, can be tested.
pub open spec fn last_variant_safe(ls: Seq<Seq<char>>) -> bool {
    first_variant_safe(rev_lines(ls))
}

/// Position of the first variant line.
pub fn first_variant_index(ls: &Vec<Vec<char>>) -> (r: Option<usize>)
    ensures
        r matches Some(i) ==> i < ls@.len() && first_variant(text::seqs(ls@)) == Some(ls@[i as int]@),
        r is None ==> first_variant(text::seqs(ls@)) is None,
{
    let ghost all = text::seqs(ls@);
    let mut i: usize = 0;
    assert(all.skip(0) =~= all);
    while i < ls.len()
        invariant
            i <= ls@.len(),
            all == text::seqs(ls@),
            first_variant(all) == first_variant(all.skip(i as int)),
        decreases ls@.len() - i,
    {
        assert(all.skip(i as int)[0] == ls@[i as int]@);
        assert(all.skip(i as int).drop_first() =~= all.skip(i + 1));
        if !text::is_short_or_tag(ls[i].as_slice()) {
            return Some(i);
        }
        i = i + 1;
    }
    None
}

/// Position of the last variant line.
pub fn last_variant_index(ls: &Vec<Vec<char>>) -> (r: Option<usize>)
    ensures
        r matches Some(i) ==> i < ls@.len() && last_variant(text::seqs(ls@)) == Some(ls@[i as int]@),
        r is None ==> last_variant(text::seqs(ls@)) is None,
{
    let ghost all = rev_lines(text::seqs(ls@));
    let n = ls.len();
    let mut j: usize = 0;
    assert(all.skip(0) =~= all);
    while j < n
        invariant
            n == ls@.len() == all.len(),
            j <= n,
            all == rev_lines(text::seqs(ls@)),
            first_variant(all) == first_variant(all.skip(j as int)),
        decreases n - j,
    {
        let i = n - 1 - j;
        assert(all.skip(j as int)[0] == ls@[i as int]@);
        assert(all.skip(j as int).drop_first() =~= all.skip(j + 1));
        if !text::is_short_or_tag(ls[i].as_slice()) {
            return Some(i);
        }
        j = j + 1;
    }
    None
}


/// How the address of a variant is made from its line.
#[derive(Debug, Clone, Copy, PartialEq, Eq, Structural)]
pub enum VariantAddress {
    /// Resolved against the master playlist's address with `url_prefix(url, line)`.
    Relative,
    /// Put after the host of the master playlist's address.
    HostRoot,
    /// The line is the address.
    AsIs,
}

pub open spec fn variant_address(line: Seq<char>, url: Seq<char>, how: VariantAddress) -> Option<Seq<char>> {
    match how {
        VariantAddress::Relative => util::resolve_seq(url, line),
        VariantAddress::HostRoot => match util::url_prefix_seq(url, seq!['/']) {
            Some(p) => Some(p + seq!['/'] + line),
            None => None,
        },
        VariantAddress::AsIs => Some(line),
    }
}

/// The address of the variant a master playlist offers: its first (or, with `from_end`,
/// last) variant line made into an address; `Ok(None)` when it offers none.
pub open spec fn pick_variant_seq(master: Seq<char>, url: Seq<char>, from_end: bool, how: VariantAddress) -> Result<Option<Seq<char>>, LookupError> {
    let ls = text::lines_seq(master);
    let v = if from_end { last_variant(ls) } else { first_variant(ls) };
    match v {
        None => Ok(None),
        Some(l) => match variant_address(l, url, how) {
            None => Err(LookupError::NoUrlPrefix),
            Some(u) => Ok(Some(u)),
        },
    }
}

/// The lines that the pick looks at can be tested for a leading `#`.
pub open spec fn pick_variant_safe(master: Seq<char>, from_end: bool) -> bool {
    if from_end {
        last_variant_safe(text::lines_seq(master))
    } else {
        first_variant_safe(text::lines_seq(master))
    }
}

/// Picks the variant of a master playlist to record.
pub fn pick_variant(master: &str, url: &str, from_end: bool, how: VariantAddress) -> (r: Result<Option<String>, LookupError>)
    requires
        pick_variant_safe(master@, from_end),
    ensures
        r matches Ok(Some(u)) ==> pick_variant_seq(master@, url@, from_end, how) == Ok::<Option<Seq<char>>, LookupError>(Some(u@)),
        r matches Ok(None) ==> pick_variant_seq(master@, url@, from_end, how) == Ok::<Option<Seq<char>>, LookupError>(None),
        r matches Err(e) ==> pick_variant_seq(master@, url@, from_end, how) == Err::<Option<Seq<char>>, LookupError>(e),
{
    let m = text::chars_of(master);
    let ls = text::lines(m.as_slice());
    let found = if from_end { last_variant_index(&ls) } else { first_variant_index(&ls) };
    let i = match found {
        None => return Ok(None),
        Some(i) => i,
    };
    let line = ls[i].as_slice();
    let u = text::chars_of(url);
    let made = match how {
        VariantAddress::Relative => util::resolve(u.as_slice(), line),
        VariantAddress::HostRoot => {
            let slash: [char; 1] = ['/'];
            assert(slash@ =~= seq!['/']);
            match util::url_prefix_len(u.as_slice(), &slash) {
                None => None,
                Some(n) => {
                    let mut v = text::slice_chars(u.as_slice(), 0, n);
                    v.push('/');
                    text::push_all(&mut v, line);
                    assert(v@ =~= u@.take(n as int) + seq!['/'] + line@);
                    Some(v)
                },
            }
        },
        VariantAddress::AsIs => {
            let v = text::slice_chars(line, 0, line.len());
            assert(v@ =~= line@);
            Some(v)
        },
    };
    match made {
        None => Err(LookupError::NoUrlPrefix),
        Some(v) => Ok(Some(text::string_of(v.as_slice()))),
    }
}


/// Whether `pick_variant` can look at the lines of `master` from the given end.
pub fn variant_lines_ok(master: &str, from_end: bool) -> (r: bool)
    ensures
        r == pick_variant_safe(master@, from_end),
{
    let m = text::chars_of(master);
    let ls = text::lines(m.as_slice());
    let ghost all = if from_end { rev_lines(text::seqs(ls@)) } else { text::seqs(ls@) };
    assert(text::seqs(ls@) == text::lines_seq(master@));
    let n = ls.len();
    let mut j: usize = 0;
    assert(all.skip(0) =~= all);
    while j < n
        invariant
            n == ls@.len() == all.len(),
            j <= n,
            all == (if from_end { rev_lines(text::seqs(ls@)) } else { text::seqs(ls@) }),
            text::seqs(ls@) == text::lines_seq(master@),
            first_variant_safe(all) == first_variant_safe(all.skip(j as int)),
        decreases n - j,
    {
        let i = if from_end { n - 1 - j } else { j };
        let line = ls[i].as_slice();
        assert(all.skip(j as int)[0] == line@);
        assert(all.skip(j as int).drop_first() =~= all.skip(j + 1));
        proof {
            text::lemma_short_line_nonempty(line@);
        }
        let short = text::byte_len_lt(line, 5);
        if !short && (line[0] as u32) >= 0x80 {
            assert(!variant_line_ok(line@));
            assert(!first_variant_safe(all.skip(j as int)));
            return false;
        }
        if !text::is_short_or_tag(line) {
            assert(variant_line_ok(line@));
            assert(first_variant_safe(all.skip(j as int)));
            return true;
        }
        j = j + 1;
    }
    assert(all.skip(n as int) =~= Seq::<Seq<char>>::empty());
    true
}

/// A model followed on a platform, with the playlist addresses found by the last check.
pub struct Model {
    pub platform: Platform,
    pub username: String,
    pub playlist_link: Option<String>,
    pub playlist_audio_link: Option<String>,
}

/// `platform:username`, the key by which configurations are compared.
pub open spec fn composite_key_of(platform: Platform, username: Seq<char>) -> Seq<char> {
    platform_name(platform) + seq![':'] + username
}

impl Model {
    pub fn new(platform: Platform, username: &str) -> (r: Self)
        ensures
            r.platform == platform,
            r.username@ == username@,
            r.playlist_link is None,
            r.playlist_audio_link is None,
    {
        Model { platform, username: username.to_owned(), playlist_link: None, playlist_audio_link: None }
    }

    /// A fresh model with the same platform and name (the links are not copied).
    pub fn clone_fresh(&self) -> (r: Self)
        ensures
            r.platform == self.platform,
            r.username@ == self.username@,
            r.playlist_link is None,
            r.playlist_audio_link is None,
    {
        Model::new(self.platform, self.username.as_str())
    }

    pub fn composite_key(&self) -> (r: String)
        ensures
            r@ == composite_key_of(self.platform, self.username@),
    {
        let mut v = text::chars_of(self.platform.name());
        v.push(':');
        text::push_str(&mut v, self.username.as_str());
        text::string_of(v.as_slice())
    }

    /// Two models are the same model when their names are equal.
    pub fn same_model(&self, other: &Model) -> (r: bool)
        ensures
            r == (self.username@ == other.username@),
    {
        let a = text::chars_of(self.username.as_str());
        let b = text::chars_of(other.username.as_str());
        text::chars_eq(a.as_slice(), b.as_slice())
    }

    /// Records the outcome of the online check: the addresses found, none when the check
    /// failed. The model is online when a playlist address was found.
    pub fn is_online(&mut self, found: Result<(Option<String>, Option<String>), LookupError>) -> (r: bool)
        ensures
            final(self).platform == old(self).platform,
            final(self).username == old(self).username,
            found matches Ok((v, a)) ==> str_opt(final(self).playlist_link) == str_opt(v)
                && str_opt(final(self).playlist_audio_link) == str_opt(a),
            found is Err ==> final(self).playlist_link is None && final(self).playlist_audio_link is None,
            r == (final(self).playlist_link is Some),
    {
        let (v, a) = match found {
            Ok(pair) => pair,
            Err(_) => (None, None),
        };
        self.playlist_audio_link = a;
        self.playlist_link = v;
        self.playlist_link.is_some()
    }

    /// The playlist to follow once the model is found online.
    pub fn start_download(&self, settings: &Settings) -> (r: Option<Playlist>)
        ensures
            r is Some <==> self.playlist_link is Some,
            r matches Some(p) ==> p.platform == self.platform && p.username@ == self.username@
                && Some(p.playlist_url@) == str_opt(self.playlist_link)
                && str_opt(p.playlist_audio_url) == str_opt(self.playlist_audio_link)
                && p.playlist is None && p.mp4_header is None
                && p.settings.user_agent@ == settings.user_agent@,
    {
        match &self.playlist_link {
            None => None,
            Some(link) => Some(
                Playlist::new(
                    self.platform,
                    self.username.clone(),
                    link.clone(),
                    self.playlist_audio_link.clone(),
                    settings.clone(),
                ),
            ),
        }
    }
}

/// Different platforms or names give different keys.
pub proof fn lemma_composite_key_injective(p1: Platform, u1: Seq<char>, p2: Platform, u2: Seq<char>)
    requires
        composite_key_of(p1, u1) == composite_key_of(p2, u2),
    ensures
        p1 == p2,
        u1 == u2,
{
    reveal_strlit("CB");
    reveal_strlit("SC");
    reveal_strlit("SCVR");
    reveal_strlit("MFC");
    reveal_strlit("BONGA");
    reveal_strlit("SODA");
    reveal_strlit("F4F");
    reveal_strlit("C4");
    let k1 = composite_key_of(p1, u1);
    let n1 = platform_name(p1);
    let n2 = platform_name(p2);
    assert(forall|i: int| 0 <= i < n1.len() ==> n1[i] != ':');
    assert(forall|i: int| 0 <= i < n2.len() ==> n2[i] != ':');
    assert(k1[n1.len() as int] == ':');
    if n1.len() < n2.len() {
        assert(k1[n1.len() as int] == n2[n1.len() as int]);
    } else if n2.len() < n1.len() {
        assert(k1[n2.len() as int] == n1[n2.len() as int]);
    }
    assert(n1.len() == n2.len());
    assert(n1 =~= k1.take(n1.len() as int));
    assert(n2 =~= k1.take(n2.len() as int));
    assert(u1 =~= k1.skip(n1.len() as int + 1));
    assert(u2 =~= k1.skip(n2.len() as int + 1));
    lemma_name_round_trip(p1);
    lemma_name_round_trip(p2);
}


/// Where reading `playlist` as a playlist of `platform` ends, its recordings dated `date`
/// where the playlist does not date them.
pub open spec fn parse_outcome(platform: Platform, playlist: Playlist, keys: Seq<(String, String)>, date: Seq<char>) -> scan::ScanOutcome {
    let t = str_opt(playlist.playlist);
    let simple = |r: Result<Seq<StreamView>, PlaylistError>| scan::ScanOutcome::Done(r);
    match platform {
        Platform::CB => scan::ScanOutcome::Done(Err(PlaylistError::Unsupported)),
        Platform::BONGA => simple(bonga::segments(t, playlist.playlist_url@, playlist.username@, playlist.settings.user_agent@, date)),
        Platform::MFC => simple(mfc::segments(t, playlist.playlist_url@, playlist.username@, playlist.settings.user_agent@, date)),
        Platform::C4 => simple(c4::segments(t, playlist.playlist_url@, playlist.username@, playlist.settings.user_agent@, date)),
        Platform::F4F => simple(f4f::segments(t, playlist.playlist_url@, playlist.username@, playlist.settings.user_agent@, date)),
        Platform::SC | Platform::SCVR | Platform::SODA => {
            let kind = match platform {
                Platform::SODA => scan::ScanKind::Soda,
                Platform::SCVR => scan::ScanKind::Sc { vr: true },
                _ => scan::ScanKind::Sc { vr: false },
            };
            match t {
                None => scan::ScanOutcome::Done(Err(PlaylistError::NoPlaylist)),
                Some(text) => scan::scan_run(scan::scan_ctx(playlist, kind, if platform == Platform::SODA { Seq::empty() } else { keys }, text), scan::start_view()),
            }
        },
    }
}

/// Reading `playlist` as a playlist of `platform` tests for a leading `#` only lines that can
/// be tested.
pub open spec fn readable(platform: Platform, playlist: Playlist, keys: Seq<(String, String)>) -> bool {
    match str_opt(playlist.playlist) {
        None => true,
        Some(t) => {
            let url = playlist.playlist_url@;
            match platform {
                Platform::CB => true,
                Platform::BONGA => bonga::readable(t, url),
                Platform::MFC => mfc::readable(t, url),
                Platform::C4 => c4::readable(t, url),
                Platform::F4F => f4f::readable(t, url),
                Platform::SC => scan::scan_safe(scan::scan_ctx(playlist, scan::ScanKind::Sc { vr: false }, keys, t), scan::start_view()),
                Platform::SCVR => scan::scan_safe(scan::scan_ctx(playlist, scan::ScanKind::Sc { vr: true }, keys, t), scan::start_view()),
                Platform::SODA => scan::scan_safe(scan::scan_ctx(playlist, scan::ScanKind::Soda, Seq::empty(), t), scan::start_view()),
            }
        },
    }
}

fn done(r: Result<Vec<crate::stream::Stream>, PlaylistError>) -> (s: scan::ScanStep)
    ensures
        scan::step_is(s, scan::ScanOutcome::Done(match r {
            Ok(v) => Ok(crate::stream::stream_views(v@)),
            Err(e) => Err(e),
        })),
{
    scan::ScanStep::Done(r)
}

impl Platform {
    /// Reads `playlist` as a playlist of this platform from its first line.
    pub fn parse_playlist(&self, playlist: &Playlist, keys: &sc::MouflonKeys, date: &str) -> (r: scan::ScanStep)
        requires
            readable(*self, *playlist, keys.pairs@),
        ensures
            scan::step_is(r, parse_outcome(*self, *playlist, keys.pairs@, date@)),
    {
        match self {
            Platform::CB => scan::ScanStep::Done(Err(PlaylistError::Unsupported)),
            Platform::BONGA => done(bonga::parse_playlist_at(playlist, date)),
            Platform::MFC => done(mfc::parse_playlist_at(playlist, date)),
            Platform::C4 => done(c4::parse_playlist_at(playlist, date)),
            Platform::F4F => done(f4f::parse_playlist_at(playlist, date)),
            Platform::SC => sc::sc_parse_playlist(playlist, false, keys),
            Platform::SCVR => sc::sc_parse_playlist(playlist, true, keys),
            Platform::SODA => soda::parse_playlist(playlist),
        }
    }
}

impl Platform {
    /// Reads `playlist` as `parse_playlist` does, where the read tests for a leading `#` only
    /// lines that can be tested; `None` where it would test one that cannot.
    pub fn parse_playlist_checked(&self, playlist: &Playlist, keys: &sc::MouflonKeys, date: &str) -> (r: Option<scan::ScanStep>)
        ensures
            r is None <==> !readable(*self, *playlist, keys.pairs@),
            r matches Some(s) ==> scan::step_is(s, parse_outcome(*self, *playlist, keys.pairs@, date@)),
    {
        let simple = |r: Option<Result<Vec<crate::stream::Stream>, PlaylistError>>| -> (s: Option<scan::ScanStep>)
            ensures
                s is None <==> r is None,
                s matches Some(st) ==> scan::step_is(st, scan::ScanOutcome::Done(match r->0 {
                    Ok(v) => Ok(crate::stream::stream_views(v@)),
                    Err(e) => Err(e),
                })),
        {
            match r {
                None => None,
                Some(x) => Some(done(x)),
            }
        };
        match self {
            Platform::CB => Some(scan::ScanStep::Done(Err(PlaylistError::Unsupported))),
            Platform::BONGA => simple(bonga::read_at(playlist, date)),
            Platform::MFC => simple(mfc::read_at(playlist, date)),
            Platform::C4 => simple(c4::read_at(playlist, date)),
            Platform::F4F => simple(f4f::read_at(playlist, date)),
            Platform::SC => scan::resume(playlist, scan::ScanKind::Sc { vr: false }, keys, scan::ScanState::start()),
            Platform::SCVR => scan::resume(playlist, scan::ScanKind::Sc { vr: true }, keys, scan::ScanState::start()),
            Platform::SODA => {
                let none = sc::MouflonKeys { pairs: Vec::new() };
                scan::resume(playlist, scan::ScanKind::Soda, &none, scan::ScanState::start())
            },
        }
    }
}

} // verus!
