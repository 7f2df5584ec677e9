//! Stripchat (and its VR site): the mouflon key table and the decryption of encrypted
//! segment names.
use vstd::prelude::*;
use crate::platforms::PlaylistError;
use crate::text;
use crate::outside;
use crate::platforms::scan::{ScanKind, ScanState, ScanStep, scan, scan_run, scan_ctx, scan_safe, start_view, step_is};
use crate::stream::Playlist;
use crate::platforms::{LookupError, last_variant, last_variant_index, variant_line_ok};
use crate::json::{JsonValue, json_get, json_str, json_i64, json_array};

verus! {

broadcast use vstd::string::group_string_axioms;

/// Table from key names (`pkey`) to keys, as Stripchat publishes it.
pub struct MouflonKeys {
    pub pairs: Vec<(String, String)>,
}

/// The key stored under `name`: the first entry with that name.
pub open spec fn key_lookup(pairs: Seq<(String, String)>, name: Seq<char>) -> Option<Seq<char>>
    decreases pairs.len(),
{
    if pairs.len() == 0 {
        None
    } else if pairs[0].0@ == name {
        Some(pairs[0].1@)
    } else {
        key_lookup(pairs.drop_first(), name)
    }
}

impl MouflonKeys {
    /// The key stored under `name`.
    pub fn get(&self, name: &[char]) -> (r: Option<String>)
        ensures
            r matches Some(v) ==> key_lookup(self.pairs@, name@) == Some(v@),
            r is None ==> key_lookup(self.pairs@, name@) is None,
    {
        let mut i: usize = 0;
        assert(self.pairs@.skip(0) =~= self.pairs@);
        while i < self.pairs.len()
            invariant
                i <= self.pairs@.len(),
                key_lookup(self.pairs@, name@) == key_lookup(self.pairs@.skip(i as int), name@),
            decreases self.pairs@.len() - i,
        {
            let k = text::chars_of(self.pairs[i].0.as_str());
            assert(self.pairs@.skip(i as int)[0] == self.pairs@[i as int]);
            if text::chars_eq(k.as_slice(), name) {
                return Some(self.pairs[i].1.clone());
            }
            assert(self.pairs@.skip(i as int).drop_first() =~= self.pairs@.skip(i + 1));
            i = i + 1;
        }
        None
    }

    /// Whether a key is stored under `name`.
    pub fn contains_key(&self, name: &[char]) -> (r: bool)
        ensures
            r == (key_lookup(self.pairs@, name@) is Some),
    {
        self.get(name).is_some()
    }
}

fn pair(k: &str, v: &str) -> (r: (String, String))
    ensures
        r.0@ == k@,
        r.1@ == v@,
{
    (k.to_owned(), v.to_owned())
}

/// The key table used when the published one cannot be had.
pub open spec fn default_key_table() -> Seq<(Seq<char>, Seq<char>)> {
    seq![
        ("Zokee2OhPh9kugh4"@, "Quean4cai9boJa5a"@),
        ("Zeechoej4aleeshi"@, "ubahjae7goPoodi6"@),
        ("Ook7quaiNgiyuhai"@, "EQueeGh2kaewa3ch"@),
        ("Fq6m2TO2ZeBkRPm9"@, "xb6di1NF9EFXHUwb"@),
        ("GrRncsoByZmsiT6L"@, "NigHYyOD9l4rvAEb"@),
        ("1Dzcc6OjP73LKbtI"@, "Y64UVwX5RrIWnOLp"@),
        ("N2oLovTIXb0o28Uj"@, "ABE7Sj8jh3oPM2ae"@),
        ("NTK9aqcLmNFMWrpQ"@, "tOcYOap4Ty1l9Jzb"@),
        ("7uUnbD0jMCB9GH32"@, "lzCQ6QBTnLpB0zMF"@),
        ("Ohi7eTRBpkAuML0l"@, "kExe29N2sLFrHGqu"@),
        ("OLzu7QlySkG2fVRn"@, "CsovScFH9VirSJ4Z"@),
    ]
}

pub open spec fn key_views(pairs: Seq<(String, String)>) -> Seq<(Seq<char>, Seq<char>)> {
    pairs.map_values(|x: (String, String)| (x.0@, x.1@))
}

pub fn default_mouflon_keys() -> (r: MouflonKeys)
    ensures
        key_views(r.pairs@) == default_key_table(),
{
    let pairs = vec![
        pair("Zokee2OhPh9kugh4", "Quean4cai9boJa5a"),
        pair("Zeechoej4aleeshi", "ubahjae7goPoodi6"),
        pair("Ook7quaiNgiyuhai", "EQueeGh2kaewa3ch"),
        pair("Fq6m2TO2ZeBkRPm9", "xb6di1NF9EFXHUwb"),
        pair("GrRncsoByZmsiT6L", "NigHYyOD9l4rvAEb"),
        pair("1Dzcc6OjP73LKbtI", "Y64UVwX5RrIWnOLp"),
        pair("N2oLovTIXb0o28Uj", "ABE7Sj8jh3oPM2ae"),
        pair("NTK9aqcLmNFMWrpQ", "tOcYOap4Ty1l9Jzb"),
        pair("7uUnbD0jMCB9GH32", "lzCQ6QBTnLpB0zMF"),
        pair("Ohi7eTRBpkAuML0l", "kExe29N2sLFrHGqu"),
        pair("OLzu7QlySkG2fVRn", "CsovScFH9VirSJ4Z"),
    ];
    assert(key_views(pairs@) =~= default_key_table());
    MouflonKeys { pairs }
}

/// The pattern that picks the encrypted part (group 1) out of a segment name.
pub const DECRYPT_PATTERN: &'static str = "_([^_]+)_(\\d+(?:_part\\d+)?)\\.mp4(?:[?#].*)?";

/// `data` XOR-ed with `key` repeated along it.
pub open spec fn xor_cycle(data: Seq<u8>, key: Seq<u8>) -> Seq<u8> {
    Seq::new(data.len(), |i: int| data[i] ^ key[i % (key.len() as int)])
}

/// `s` padded with `=` to a multiple of four bytes.
pub open spec fn base64_padded(s: Seq<char>) -> Seq<char> {
    let m = text::byte_len(s) % 4;
    if m != 0 {
        s + Seq::new((4 - m) as nat, |i: int| '=')
    } else {
        s
    }
}

/// The address that an encrypted `#EXT-X-MOUFLON` line stands for under `key`: the text
/// after its last `:` is read as an `https:` address, the encrypted part of the name is
/// reversed, base64-decoded, XOR-ed with the SHA-256 digest of the key and put back in
/// place of the encrypted part.
pub open spec fn decrypt_seq(key: Seq<char>, line: Seq<char>) -> Result<Seq<char>, PlaylistError> {
    let encoded = "https:"@ + text::split_seq(line, ':').last();
    match outside::regex_group(DECRYPT_PATTERN@, encoded, 1) {
        None => Err(PlaylistError::NoEncryptedName),
        Some(enc) => match outside::base64_standard_decode(base64_padded(text::reversed(enc))) {
            None => Err(PlaylistError::BadEncryptedName),
            Some(bytes) => Ok(
                text::replace_seq(
                    encoded,
                    enc,
                    outside::utf8_lossy(xor_cycle(bytes, outside::sha256_of(vstd::utf8::encode_utf8(key)))),
                ),
            ),
        },
    }
}

/// `data` XOR-ed with `key` repeated along it.
pub fn unmask(data: &Vec<u8>, key: &Vec<u8>) -> (r: Vec<u8>)
    requires
        key@.len() > 0,
    ensures
        r@ == xor_cycle(data@, key@),
{
    let mut r: Vec<u8> = Vec::new();
    let mut i: usize = 0;
    while i < data.len()
        invariant
            i <= data@.len(),
            key@.len() > 0,
            r@.len() == i,
            forall|j: int| 0 <= j < i ==> r@[j] == data@[j] ^ key@[j % (key@.len() as int)],
        decreases data@.len() - i,
    {
        r.push(data[i] ^ key[i % key.len()]);
        i = i + 1;
    }
    assert(r@ =~= xor_cycle(data@, key@));
    r
}

/// The text given to the base64 decoder for an encrypted name: the name reversed and padded
/// with `=` to a multiple of four bytes.
pub fn base64_input(enc: &[char]) -> (r: Vec<char>)
    ensures
        r@ == base64_padded(text::reversed(enc@)),
{
    let mut rev = text::reverse(enc);
    let m = text::byte_len_mod4(rev.as_slice());
    let ghost unpadded = rev@;
    if m != 0 {
        let mut k: usize = 0;
        while k < 4 - m
            invariant
                m < 4,
                k <= 4 - m,
                rev@ == unpadded + Seq::new(k as nat, |i: int| '='),
            decreases 4 - m - k,
        {
            rev.push('=');
            k = k + 1;
            assert(rev@ =~= unpadded + Seq::new(k as nat, |i: int| '='));
        }
        assert(rev@ =~= base64_padded(unpadded));
    } else {
        assert(rev@ =~= base64_padded(unpadded));
    }
    rev
}

/// Decrypts the segment address carried by a `#EXT-X-MOUFLON` line.
pub fn decrypt(key: &str, mouflon_line: &[char]) -> (r: Result<Vec<char>, PlaylistError>)
    ensures
        r matches Ok(v) ==> decrypt_seq(key@, mouflon_line@) == Ok::<Seq<char>, PlaylistError>(v@),
        r matches Err(e) ==> decrypt_seq(key@, mouflon_line@) == Err::<Seq<char>, PlaylistError>(e),
{
    let key_hashed = outside::sha256(key.as_bytes());
    let pieces = text::split(mouflon_line, ':');
    let mut encoded = text::chars_of("https:");
    text::push_all(&mut encoded, pieces[pieces.len() - 1].as_slice());
    let encoded_s = text::string_of(encoded.as_slice());
    let enc = match outside::regex_capture(DECRYPT_PATTERN, encoded_s.as_str(), 1) {
        Some(m) => m,
        None => return Err(PlaylistError::NoEncryptedName),
    };
    let enc_c = text::chars_of(enc.as_str());
    let rev = base64_input(enc_c.as_slice());
    let padded = text::string_of(rev.as_slice());
    let bytes = match outside::base64_decode(padded.as_str()) {
        Some(b) => b,
        None => return Err(PlaylistError::BadEncryptedName),
    };
    let plain = unmask(&bytes, &key_hashed);
    let decoded = outside::from_utf8_lossy(plain.as_slice());
    let dec_c = text::chars_of(decoded.as_str());
    Ok(text::replace(encoded.as_slice(), enc_c.as_slice(), dec_c.as_slice()))
}


/// XOR-ing twice with the same repeated key gives the data back.
pub proof fn lemma_unmask_inverse(data: Seq<u8>, key: Seq<u8>)
    ensures
        xor_cycle(xor_cycle(data, key), key) == data,
{
    assert forall|i: int| 0 <= i < data.len() implies #[trigger] xor_cycle(xor_cycle(data, key), key)[i] == data[i] by {
        let d = data[i];
        let k = key[i % (key.len() as int)];
        assert((d ^ k) ^ k == d) by (bit_vector);
    }
    assert(xor_cycle(xor_cycle(data, key), key) =~= data);
}

/// Decryption undoes the masking: where the pattern picks out `enc` and base64 gives back
/// `plain` masked with the key's digest, the address carries `plain` in place of `enc`.
pub proof fn lemma_decrypt_undoes_masking(key: Seq<char>, line: Seq<char>, enc: Seq<char>, plain: Seq<u8>)
    requires
        outside::regex_group(DECRYPT_PATTERN@, "https:"@ + text::split_seq(line, ':').last(), 1) == Some(enc),
        outside::base64_standard_decode(base64_padded(text::reversed(enc))) == Some(
            xor_cycle(plain, outside::sha256_of(vstd::utf8::encode_utf8(key))),
        ),
    ensures
        decrypt_seq(key, line) == Ok::<Seq<char>, PlaylistError>(
            text::replace_seq("https:"@ + text::split_seq(line, ':').last(), enc, outside::utf8_lossy(plain)),
        ),
{
    lemma_unmask_inverse(plain, outside::sha256_of(vstd::utf8::encode_utf8(key)));
}

/// Reads a Stripchat playlist from its first line (`vr` for the VR site). Where it names an
/// initialisation segment that `playlist` does not yet hold, the read stops there and is
/// resumed with `scan` once the segment has been put in `playlist.mp4_header`.
pub fn sc_parse_playlist(playlist: &Playlist, vr: bool, keys: &MouflonKeys) -> (r: ScanStep)
    requires
        playlist.playlist matches Some(t) ==> scan_safe(scan_ctx(*playlist, ScanKind::Sc { vr }, keys.pairs@, t@), start_view()),
    ensures
        playlist.playlist is None ==> r matches ScanStep::Done(Err(PlaylistError::NoPlaylist)),
        playlist.playlist matches Some(t) ==> step_is(
            r,
            scan_run(scan_ctx(*playlist, ScanKind::Sc { vr }, keys.pairs@, t@), start_view()),
        ),
{
    scan(playlist, ScanKind::Sc { vr }, keys, ScanState::start())
}

/// Reads a Stripchat playlist.
pub fn parse_playlist(playlist: &Playlist, keys: &MouflonKeys) -> (r: ScanStep)
    requires
        playlist.playlist matches Some(t) ==> scan_safe(scan_ctx(*playlist, ScanKind::Sc { vr: false }, keys.pairs@, t@), start_view()),
    ensures
        playlist.playlist is None ==> r matches ScanStep::Done(Err(PlaylistError::NoPlaylist)),
        playlist.playlist matches Some(t) ==> step_is(
            r,
            scan_run(scan_ctx(*playlist, ScanKind::Sc { vr: false }, keys.pairs@, t@), start_view()),
        ),
{
    sc_parse_playlist(playlist, false, keys)
}


/// The address whose answer lists models, from which the HLS host is learnt.
pub fn models_address() -> (r: &'static str)
    ensures
        r@ == "https://stripchat.com/api/front/models?primaryTag=girls"@,
{
    "https://stripchat.com/api/front/models?primaryTag=girls"
}

/// The HLS host prefix: the first three `/`-separated fields of the first listed model's
/// playlist address, joined again.
pub open spec fn hls_prefix_of(json: JsonValue) -> Option<Seq<char>> {
    let r = match json_get(json, "models"@) {
        None => None,
        Some(mv) => match json_array(mv) {
            None => None,
            Some(models) => if models.len() == 0 {
                None
            } else {
                match json_get(models[0], "hlsPlaylist"@) {
                    None => None,
                    Some(h) => json_str(h),
                }
            },
        },
    };
    match r {
        None => None,
        Some(ref_hls) => {
            let p = text::split_seq(ref_hls, '/');
            if p.len() < 3 {
                None
            } else {
                Some(p[0] + seq!['/'] + p[1] + seq!['/'] + p[2])
            }
        },
    }
}

pub fn hls_prefix(json: &JsonValue) -> (r: Option<String>)
    ensures
        r matches Some(s) ==> hls_prefix_of(*json) == Some(s@),
        r is None ==> hls_prefix_of(*json) is None,
{
    let models = match json.get("models") {
        None => return None,
        Some(mv) => match mv.as_array() {
            None => return None,
            Some(a) => a,
        },
    };
    if models.len() == 0 {
        return None;
    }
    let ref_hls = match models[0].get("hlsPlaylist") {
        None => return None,
        Some(h) => match h.as_str() {
            None => return None,
            Some(x) => x,
        },
    };
    let c = text::chars_of(ref_hls.as_str());
    let p = text::split(c.as_slice(), '/');
    if p.len() < 3 {
        return None;
    }
    let mut v = text::slice_chars(p[0].as_slice(), 0, p[0].len());
    v.push('/');
    text::push_all(&mut v, p[1].as_slice());
    v.push('/');
    text::push_all(&mut v, p[2].as_slice());
    assert(v@ =~= p@[0]@ + seq!['/'] + p@[1]@ + seq!['/'] + p@[2]@);
    Some(text::string_of(v.as_slice()))
}

/// The address of the cam description of `username`.
pub fn cam_address(username: &str) -> (r: String)
    ensures
        r@ == "https://stripchat.com/api/front/v2/models/username/"@ + username@ + "/cam"@,
{
    let mut u = text::chars_of("https://stripchat.com/api/front/v2/models/username/");
    text::push_str(&mut u, username);
    text::push_str(&mut u, "/cam");
    text::string_of(u.as_slice())
}

/// The model id in a cam description: `user.user.id`.
pub open spec fn model_id_of(json: JsonValue) -> Option<i64> {
    match json_get(json, "user"@) {
        None => None,
        Some(a) => match json_get(a, "user"@) {
            None => None,
            Some(b) => match json_get(b, "id"@) {
                None => None,
                Some(c) => json_i64(c),
            },
        },
    }
}

pub fn model_id(json: &JsonValue) -> (r: Option<i64>)
    ensures
        r == model_id_of(*json),
{
    match json.get("user") {
        None => None,
        Some(a) => match a.get("user") {
            None => None,
            Some(b) => match b.get("id") {
                None => None,
                Some(c) => c.as_i64(),
            },
        },
    }
}

pub open spec fn vr_suffix(vr: bool) -> Seq<char> {
    if vr { "_vr"@ } else { Seq::empty() }
}

/// The master playlist address of model `id` under the HLS prefix.
pub fn master_address(prefix: &str, id: i64, vr: bool) -> (r: String)
    ensures
        r@ == prefix@ + "/hls/"@ + text::int_string(id as int) + vr_suffix(vr) + "/master/"@
            + text::int_string(id as int) + vr_suffix(vr) + ".m3u8"@,
{
    let idc = text::i64_digits(id);
    let sfx = if vr { text::chars_of("_vr") } else { Vec::new() };
    let mut u = text::chars_of(prefix);
    text::push_str(&mut u, "/hls/");
    text::push_all(&mut u, idc.as_slice());
    text::push_all(&mut u, sfx.as_slice());
    text::push_str(&mut u, "/master/");
    text::push_all(&mut u, idc.as_slice());
    text::push_all(&mut u, sfx.as_slice());
    text::push_str(&mut u, ".m3u8");
    assert(sfx@ == vr_suffix(vr));
    text::string_of(u.as_slice())
}

/// The key tags of a master playlist applied to its chosen address `url`: the first tag
/// whose key is known, met while an address is chosen, appends `?&psch=` and `&pkey=`.
pub open spec fn mouflon_apply(ls: Seq<Seq<char>>, keys: Seq<(String, String)>, url: Option<Seq<char>>) -> Result<Option<Seq<char>>, LookupError>
    decreases ls.len(),
{
    if ls.len() == 0 {
        Ok(url)
    } else {
        let l = ls[0];
        if !text::contains_seq(l, "EXT-X-MOUFLON"@) {
            mouflon_apply(ls.drop_first(), keys, url)
        } else {
            let segs = text::split_seq(l, ':');
            if segs.len() < 4 {
                Err(LookupError::NoMouflonKey)
            } else if key_lookup(keys, segs[3]) is None {
                mouflon_apply(ls.drop_first(), keys, url)
            } else {
                match url {
                    Some(u) => Ok(Some(u + "?&psch="@ + segs[2] + "&pkey="@ + segs[3])),
                    None => mouflon_apply(ls.drop_first(), keys, url),
                }
            }
        }
    }
}

/// The playlist to record from a master playlist: its last variant line, with the key
/// parameters appended when the master playlist carries key tags.
pub open spec fn select_playlist_of(master: Seq<char>, keys: Seq<(String, String)>) -> Result<Option<Seq<char>>, LookupError> {
    let ls = text::lines_seq(master);
    if text::contains_seq(master, "EXT-X-MOUFLON"@) {
        mouflon_apply(ls, keys, last_variant(ls))
    } else {
        Ok(last_variant(ls))
    }
}

/// Every line of the master playlist can be tested for a leading `#`.
pub open spec fn master_lines_ok(master: Seq<char>) -> bool {
    forall|k: int| 0 <= k < text::lines_seq(master).len() ==> variant_line_ok(#[trigger] text::lines_seq(master)[k])
}

/// Whether `select_playlist` can look at every line of `master`.
pub fn master_lines_valid(master: &str) -> (r: bool)
    ensures
        r == master_lines_ok(master@),
{
    let m = text::chars_of(master);
    let ls = text::lines(m.as_slice());
    let ghost all = text::lines_seq(master@);
    let mut i: usize = 0;
    while i < ls.len()
        invariant
            i <= ls@.len(),
            text::seqs(ls@) == all,
            all == text::lines_seq(master@),
            forall|k: int| 0 <= k < i ==> variant_line_ok(#[trigger] text::lines_seq(master@)[k]),
        decreases ls@.len() - i,
    {
        let line = ls[i].as_slice();
        assert(all[i as int] == line@);
        proof {
            text::lemma_short_line_nonempty(line@);
        }
        if !text::byte_len_lt(line, 5) && (line[0] as u32) >= 0x80 {
            assert(!variant_line_ok(text::lines_seq(master@)[i as int]));
            return false;
        }
        i = i + 1;
    }
    true
}

pub fn select_playlist(master: &str, keys: &MouflonKeys) -> (r: Result<Option<String>, LookupError>)
    requires
        master_lines_ok(master@),
    ensures
        r matches Ok(Some(u)) ==> select_playlist_of(master@, keys.pairs@) == Ok::<Option<Seq<char>>, LookupError>(Some(u@)),
        r matches Ok(None) ==> select_playlist_of(master@, keys.pairs@) == Ok::<Option<Seq<char>>, LookupError>(None),
        r matches Err(e) ==> select_playlist_of(master@, keys.pairs@) == Err::<Option<Seq<char>>, LookupError>(e),
{
    let m = text::chars_of(master);
    let ls = text::lines(m.as_slice());
    let ghost all = text::seqs(ls@);
    let base: Option<Vec<char>> = match last_variant_index(&ls) {
        None => None,
        Some(i) => Some(text::slice_chars(ls[i].as_slice(), 0, ls[i].len())),
    };
    proof {
        if base is Some {
            assert(base->0@ =~= last_variant(all)->0);
        }
    }
    if !text::contains_str(m.as_slice(), "EXT-X-MOUFLON") {
        return match base {
            None => Ok(None),
            Some(b) => Ok(Some(text::string_of(b.as_slice()))),
        };
    }
    let mut url = base;
    let n = ls.len();
    let mut i: usize = 0;
    assert(all.skip(0) =~= all);
    while i < n
        invariant
            n == ls@.len() == all.len(),
            i <= n,
            all == text::seqs(ls@),
            all == text::lines_seq(master@),
            text::contains_seq(master@, "EXT-X-MOUFLON"@),
            select_playlist_of(master@, keys.pairs@) == mouflon_apply(all.skip(i as int), keys.pairs@, match url { Some(u) => Some(u@), None => None }),
        decreases n - i,
    {
        let l = ls[i].as_slice();
        assert(all.skip(i as int)[0] == l@);
        assert(all.skip(i as int).drop_first() =~= all.skip(i + 1));
        if text::contains_str(l, "EXT-X-MOUFLON") {
            let segs = text::split(l, ':');
            if segs.len() < 4 {
                return Err(LookupError::NoMouflonKey);
            }
            if keys.contains_key(segs[3].as_slice()) {
                match url {
                    Some(u) => {
                        let mut v = u;
                        text::push_str(&mut v, "?&psch=");
                        text::push_all(&mut v, segs[2].as_slice());
                        text::push_str(&mut v, "&pkey=");
                        text::push_all(&mut v, segs[3].as_slice());
                        return Ok(Some(text::string_of(v.as_slice())));
                    },
                    None => {
                        url = None;
                    },
                }
            }
        }
        i = i + 1;
    }
    match url {
        None => Ok(None),
        Some(u) => Ok(Some(text::string_of(u.as_slice()))),
    }
}


/// The key table that a published answer gives: an object whose members are all strings;
/// any other answer, or none, gives the table used when none can be had.
pub open spec fn published_pairs(json: Option<JsonValue>) -> Option<Seq<(Seq<char>, Seq<char>)>> {
    match json {
        Some(JsonValue::Object(pairs)) => if forall|i: int| 0 <= i < pairs@.len() ==> json_str(#[trigger] pairs@[i].1) is Some {
            Some(Seq::new(pairs@.len(), |i: int| (pairs@[i].0@, json_str(pairs@[i].1)->0)))
        } else {
            None
        },
        _ => None,
    }
}

impl MouflonKeys {
    /// The key table from the published answer, or the built-in table where the answer is
    /// missing or not an object of strings.
    pub fn from_published(json: Option<&JsonValue>) -> (r: MouflonKeys)
        ensures
            published_pairs(match json { Some(j) => Some(*j), None => None }) matches Some(p)
                ==> key_views(r.pairs@) == p,
            published_pairs(match json { Some(j) => Some(*j), None => None }) is None
                ==> key_views(r.pairs@) == default_key_table(),
    {
        match json {
            Some(j) => match crate::util::create_headers(j) {
                Ok(pairs) => {
                    proof {
                        assert(crate::util::header_pairs(*j) == published_pairs(Some(*j)));
                    }
                    MouflonKeys { pairs }
                },
                Err(_) => default_mouflon_keys(),
            },
            None => default_mouflon_keys(),
        }
    }
}

} // verus!
