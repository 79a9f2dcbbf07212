//! Playing audio files: which files are played, and what came of it.

use vstd::prelude::*;

use crate::appctl::{describe_failure, failure_text};
use crate::json::{Json, JsonView};
use crate::text::{
    chars_of, complaint, ends_with, ends_with_seq, join, join3, lower_ascii_seq, occurs_at,
    rfind_at, rfind_from, rfind_seq, same, slice_text, text_of, to_lower_ascii,
};
use crate::values::{and_member, bool_member, empty_object, no_members, text_member, text_or};

verus! {

/// How many seconds are waited for a file to end.
pub const PLAY_TIMEOUT: u64 = 120;

/// What was found at a path.
#[derive(Debug)]
pub enum FileFact {
    /// It cannot be looked at, for this reason.
    Unavailable(String),
    /// It is no file.
    NotAFile,
    /// It is a file.
    File,
}

/// What is known of the loudness asked for.
#[derive(Clone, Copy, Debug, PartialEq, Eq, Structural)]
pub enum VolumeFact {
    /// None was asked for.
    Absent,
    /// It lies between nothing and full.
    Within,
    /// It lies outside.
    Outside,
}

/// What comes behind the last dot of a path, in lower case.
pub open spec fn extension_of(path: Seq<char>) -> Seq<char> {
    match rfind_seq(path, "."@) {
        Some(i) => lower_ascii_seq(path.skip(i + 1)),
        None => Seq::empty(),
    }
}

/// Whether files with this extension are played.
pub open spec fn playable(ext: Seq<char>) -> bool {
    ||| ext == "wav"@
    ||| ext == "mp3"@
    ||| ext == "aiff"@
    ||| ext == "aif"@
    ||| ext == "aac"@
    ||| ext == "m4a"@
    ||| ext == "ogg"@
    ||| ext == "flac"@
}

/// What is wrong with a request to play a file.
pub open spec fn play_complaint(input: JsonView, file: FileFact, volume: VolumeFact) -> Option<Seq<char>> {
    match text_member(input, "path"@) {
        None => Some("invalid input: path (string) required"@),
        Some(path) => if path.len() == 0 {
            Some("invalid input: path must be non-empty"@)
        } else {
            match file {
                FileFact::Unavailable(why) => Some("audio file unavailable: "@ + why@),
                FileFact::NotAFile => Some("not a file: "@ + path),
                FileFact::File => if !playable(extension_of(path)) {
                    Some(
                        "unsupported audio extension ."@ + extension_of(path)
                            + " (allowed: wav, mp3, aiff, aif, aac, m4a, ogg, flac)"@,
                    )
                } else if volume == VolumeFact::Outside {
                    Some("invalid input: volume must be between 0.0 and 1.0"@)
                } else {
                    None
                },
            }
        },
    }
}

/// The path that a request to play a file names: the first thing that is checked of it.
pub fn path_in(input: &Json) -> (r: Result<String, String>)
    ensures
        match r {
            Ok(p) => text_member(input@, "path"@) == Some(p@) && p@.len() > 0,
            Err(e) => match text_member(input@, "path"@) {
                None => e@ == "invalid input: path (string) required"@,
                Some(p) => p.len() == 0 && e@ == "invalid input: path must be non-empty"@,
            },
        },
{
    match input.text_at("path") {
        None => Err("invalid input: path (string) required".to_string()),
        Some(p) => if p.is_empty() {
            Err("invalid input: path must be non-empty".to_string())
        } else {
            Ok(p.to_string())
        },
    }
}

fn extension(path: &str) -> (r: String)
    ensures
        r@ == extension_of(path@),
{
    let cs: Vec<char> = chars_of(path);
    let total: usize = cs.len();
    let dot: Vec<char> = chars_of(".");
    proof {
        reveal_strlit(".");
    }
    match rfind_at(&cs, &dot) {
        Some(i) => {
            assert(occurs_at(path@, "."@, i as int)) by {
                lemma_rfind(path@, "."@, path@.len() - 1);
            }
            let behind: String = slice_text(&cs, i + 1, total);
            assert(behind@ =~= path@.skip(i + 1));
            to_lower_ascii(behind.as_str())
        },
        None => {
            let none: String = String::new();
            assert(none@ =~= Seq::<char>::empty());
            none
        },
    }
}

proof fn lemma_rfind(s: Seq<char>, p: Seq<char>, from: int)
    ensures
        match rfind_from(s, p, from) {
            Some(i) => occurs_at(s, p, i),
            None => true,
        },
    decreases from + 1,
{
    if from >= 0 && !occurs_at(s, p, from) {
        lemma_rfind(s, p, from - 1);
    }
}

fn is_playable(ext: &str) -> (r: bool)
    ensures
        r == playable(ext@),
{
    same(ext, "wav") || same(ext, "mp3") || same(ext, "aiff") || same(ext, "aif") || same(
        ext,
        "aac",
    ) || same(ext, "m4a") || same(ext, "ogg") || same(ext, "flac")
}

/// What is to be played.
#[derive(Debug)]
pub struct Playback {
    pub path: String,
    /// Whether to wait for its end.
    pub wait: bool,
}

/// Reads a request to play a file, given what was found at its path and what is known of the
/// loudness asked for.
pub fn validate(input: &Json, file: &FileFact, volume: VolumeFact) -> (r: Result<Playback, String>)
    ensures
        complaint(r) == play_complaint(input@, *file, volume),
        r is Ok ==> r->Ok_0.path@ == text_or(input@, "path"@, Seq::empty()) && r->Ok_0.wait == (
        bool_member(input@, "wait"@) == Some(true)),
{
    let path: String = match path_in(input) {
        Ok(p) => p,
        Err(e) => {
            return Err(e);
        },
    };
    match file {
        FileFact::Unavailable(why) => {
            return Err(join("audio file unavailable: ", why.as_str()));
        },
        FileFact::NotAFile => {
            return Err(join("not a file: ", path.as_str()));
        },
        FileFact::File => {},
    }
    let ext: String = extension(path.as_str());
    if !is_playable(ext.as_str()) {
        return Err(
            join3(
                "unsupported audio extension .",
                ext.as_str(),
                " (allowed: wav, mp3, aiff, aif, aac, m4a, ogg, flac)",
            ),
        );
    }
    if volume == VolumeFact::Outside {
        return Err("invalid input: volume must be between 0.0 and 1.0".to_string());
    }
    let wait: bool = match input.bool_at("wait") {
        Some(b) => b,
        None => false,
    };
    Ok(Playback { path, wait })
}

/// Why the player of Windows does not play a file.
pub open spec fn windows_complaint(path: Seq<char>, volume: VolumeFact) -> Option<Seq<char>> {
    if volume != VolumeFact::Absent {
        Some("volume not supported on Windows builtin (Media.SoundPlayer)"@)
    } else if !ends_with_seq(lower_ascii_seq(path), ".wav"@) {
        Some("Windows builtin plays .wav only (Media.SoundPlayer)"@)
    } else {
        None
    }
}

/// Checks that the player of Windows can play a file.
pub fn check_windows(path: &str, volume: VolumeFact) -> (r: Result<(), String>)
    ensures
        complaint(r) == windows_complaint(path@, volume),
{
    if volume != VolumeFact::Absent {
        return Err("volume not supported on Windows builtin (Media.SoundPlayer)".to_string());
    }
    if !ends_with(to_lower_ascii(path).as_str(), ".wav") {
        return Err("Windows builtin plays .wav only (Media.SoundPlayer)".to_string());
    }
    Ok(())
}

/// The answer once a file plays.
pub open spec fn play_answer(waited: bool) -> JsonView {
    and_member(
        and_member(no_members(), "ok"@, JsonView::Bool(true)),
        "waited"@,
        JsonView::Bool(waited),
    )
}

/// The answer once a file plays, or has been played to its end.
pub fn played(waited: bool) -> (r: Json)
    ensures
        r@ == play_answer(waited),
{
    empty_object().with("ok", Json::Bool(true)).with("waited", Json::Bool(waited))
}

/// The answer once the player has ended.
pub fn play_outcome(success: bool, code: Option<i32>, stderr: &str, hint: &str) -> (r: Result<
    Json,
    String,
>)
    ensures
        match r {
            Ok(j) => success && j@ == play_answer(true),
            Err(e) => !success && e@ == failure_text("audio player"@, code, stderr@, 200) + hint@,
        },
{
    if success {
        Ok(played(true))
    } else {
        Err(join(describe_failure("audio player", code, stderr, 200).as_str(), hint))
    }
}

/// A text with every single quote written twice.
pub open spec fn quotes_doubled(s: Seq<char>) -> Seq<char>
    decreases s.len(),
{
    if s.len() == 0 {
        s
    } else if s.last() == '\'' {
        quotes_doubled(s.drop_last()).push('\'').push('\'')
    } else {
        quotes_doubled(s.drop_last()).push(s.last())
    }
}

fn double_quotes(s: &str) -> (r: String)
    ensures
        r@ == quotes_doubled(s@),
{
    let cs: Vec<char> = chars_of(s);
    let mut out: Vec<char> = Vec::new();
    let mut i: usize = 0;
    assert(s@.take(0) =~= Seq::empty());
    while i < cs.len()
        invariant
            i <= cs@.len(),
            cs@ == s@,
            out@ == quotes_doubled(s@.take(i as int)),
        decreases cs@.len() - i,
    {
        assert(s@.take(i + 1).drop_last() =~= s@.take(i as int));
        let c: char = cs[i];
        if c == '\'' {
            out.push(c);
        }
        out.push(c);
        i += 1;
    }
    assert(s@.take(i as int) =~= s@);
    text_of(&out)
}

/// The script by which Windows plays a file to its end.
pub fn sound_script(path: &str) -> (r: String)
    ensures
        r@ == "$p=New-Object Media.SoundPlayer('"@ + quotes_doubled(path@) + "'); $p.PlaySync()"@,
{
    join3("$p=New-Object Media.SoundPlayer('", double_quotes(path).as_str(), "'); $p.PlaySync()")
}

/// How many single quotes a text holds.
pub open spec fn quotes_in(s: Seq<char>) -> nat
    decreases s.len(),
{
    if s.len() == 0 {
        0
    } else {
        quotes_in(s.drop_last()) + if s.last() == '\'' {
            1nat
        } else {
            0nat
        }
    }
}

/// A path does not end the quotes that it stands in: wherever it goes on behind some characters, or
/// ends, an even number of quotes stands before, each read together with its double.
pub proof fn paths_stay_inside_their_quotes(path: Seq<char>, i: int)
    requires
        0 <= i <= quotes_doubled(path).len(),
        i == quotes_doubled(path).len() || quotes_doubled(path)[i] != '\'',
    ensures
        quotes_in(quotes_doubled(path).take(i)) % 2 == 0,
    decreases path.len(),
{
    let d = quotes_doubled(path);
    if path.len() == 0 {
        assert(d.take(i) =~= Seq::empty());
    } else {
        let rest = quotes_doubled(path.drop_last());
        if i <= rest.len() {
            assert(i < rest.len() ==> d[i] == rest[i]);
            paths_stay_inside_their_quotes(path.drop_last(), i);
            assert(d.take(i) =~= rest.take(i));
        } else {
            paths_stay_inside_their_quotes(path.drop_last(), rest.len() as int);
            assert(rest.take(rest.len() as int) =~= rest);
            assert(d.take(i) =~= d);
            if path.last() == '\'' {
                let one = rest.push('\'');
                assert(d.drop_last() =~= one);
                assert(one.drop_last() =~= rest);
                assert(quotes_in(one) == quotes_in(rest) + 1);
                assert(quotes_in(d) == quotes_in(one) + 1);
            } else {
                assert(d.drop_last() =~= rest);
            }
        }
    }
}

} // verus!
