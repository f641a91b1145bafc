//! Read requests: how a reader asks for history and live frames, and how such
//! a request is read from a form-encoded query string.
use vstd::prelude::*;
use crate::frame::OptionError;
use crate::ident::{id_from_text, parse_id};
use crate::text::{parse_u64, parse_u64_spec, same_text};

verus! {

/// Whether a reader stays attached for live frames after the replay.
#[derive(Clone, Copy, Debug, PartialEq, Eq, Structural)]
pub enum FollowOption {
    /// Replay only.
    Off,
    /// Replay, then every frame appended afterwards.
    On,
    /// As `On`, with a heartbeat frame every this many milliseconds.
    WithHeartbeat(u64),
}

/// What a reader asks for.
#[derive(Clone, Copy, Debug, PartialEq, Eq, Structural)]
pub struct ReadOptions {
    pub follow: FollowOption,
    /// Replay nothing; go straight to live frames.
    pub tail: bool,
    /// Replay only frames whose identifier is greater than this one.
    pub last_id: Option<u128>,
}

/// Replay everything and stop.
pub open spec fn default_options() -> ReadOptions {
    ReadOptions { follow: FollowOption::Off, tail: false, last_id: None }
}

impl Default for ReadOptions {
    fn default() -> (r: ReadOptions)
        ensures
            r == default_options(),
    {
        ReadOptions { follow: FollowOption::Off, tail: false, last_id: None }
    }
}

/// What the text of a `follow` field asks for: empty, `yes` or `true` follow;
/// a number follows with a heartbeat of that many milliseconds; `false` and
/// `no` do not follow.
pub open spec fn follow_spec(v: Seq<char>) -> Result<FollowOption, OptionError> {
    if v.len() == 0 || v == "yes"@ {
        Ok(FollowOption::On)
    } else if parse_u64_spec(v) is Some {
        Ok(FollowOption::WithHeartbeat(parse_u64_spec(v)->Some_0))
    } else if v == "true"@ {
        Ok(FollowOption::On)
    } else if v == "false"@ || v == "no"@ {
        Ok(FollowOption::Off)
    } else {
        Err(OptionError::InvalidFollow)
    }
}

/// What the text of a `tail` field asks for: anything but `false`, `no` and
/// `0` is true.
pub open spec fn tail_spec(v: Seq<char>) -> bool {
    !(v == "false"@ || v == "no"@ || v == "0"@)
}

/// The options read so far, and whether `follow`, `tail` and `last-id` were seen.
pub type QueryState = (ReadOptions, bool, bool, bool);

/// Reads one name/value pair into the state; names other than the three
/// fields are ignored.
pub open spec fn query_step(st: QueryState, p: (Seq<char>, Seq<char>)) -> Result<QueryState, OptionError> {
    let o = st.0;
    if p.0 == "follow"@ {
        if st.1 {
            Err(OptionError::DuplicateField)
        } else {
            match follow_spec(p.1) {
                Ok(f) => Ok((ReadOptions { follow: f, tail: o.tail, last_id: o.last_id }, true, st.2, st.3)),
                Err(e) => Err(e),
            }
        }
    } else if p.0 == "tail"@ {
        if st.2 {
            Err(OptionError::DuplicateField)
        } else {
            Ok((ReadOptions { follow: o.follow, tail: tail_spec(p.1), last_id: o.last_id }, st.1, true, st.3))
        }
    } else if p.0 == "last-id"@ {
        if st.3 {
            Err(OptionError::DuplicateField)
        } else {
            match id_from_text(p.1) {
                Some(id) => Ok((ReadOptions { follow: o.follow, tail: o.tail, last_id: Some(id) }, st.1, st.2, true)),
                None => Err(OptionError::InvalidLastId),
            }
        }
    } else {
        Ok(st)
    }
}

/// Reads the pairs in order, stopping at the first rejected one.
pub open spec fn query_fold(ps: Seq<(Seq<char>, Seq<char>)>) -> Result<QueryState, OptionError>
    decreases ps.len(),
{
    if ps.len() == 0 {
        Ok((default_options(), false, false, false))
    } else {
        match query_fold(ps.drop_last()) {
            Ok(st) => query_step(st, ps.last()),
            Err(e) => Err(e),
        }
    }
}

/// The options that a sequence of decoded name/value pairs asks for.
pub open spec fn options_of_pairs(ps: Seq<(Seq<char>, Seq<char>)>) -> Result<ReadOptions, OptionError> {
    match query_fold(ps) {
        Ok(st) => Ok(st.0),
        Err(e) => Err(e),
    }
}

/// The characters of each name and value.
pub open spec fn pairs_view(v: Seq<(String, String)>) -> Seq<(Seq<char>, Seq<char>)> {
    v.map_values(|p: (String, String)| (p.0@, p.1@))
}

/// The decoded name/value pairs of form-encoded text, in order, or `None`
/// where the text cannot be decoded.
pub uninterp spec fn form_pairs(q: Seq<char>) -> Option<Seq<(Seq<char>, Seq<char>)>>;

/// Relies on `serde_urlencoded::from_str` into a list of string pairs: it
/// splits the text at `&` and `=` and percent-decodes each part.
#[verifier::external_body]
fn decode_form(q: &str) -> (r: Option<Vec<(String, String)>>)
    ensures
        match r {
            Some(v) => form_pairs(q@) == Some(pairs_view(v@)),
            None => form_pairs(q@) is None,
        },
{
    serde_urlencoded::from_str::<Vec<(String, String)>>(q).ok()
}

/// The options that the query string `query` asks for.
pub open spec fn options_of_query(query: Option<Seq<char>>) -> Result<ReadOptions, OptionError> {
    match query {
        None => Ok(default_options()),
        Some(q) => match form_pairs(q) {
            Some(ps) => options_of_pairs(ps),
            None => Err(OptionError::Malformed),
        },
    }
}

proof fn lemma_fold_error_stays(ps: Seq<(Seq<char>, Seq<char>)>, k: int)
    requires
        0 <= k <= ps.len(),
        query_fold(ps.subrange(0, k)) is Err,
    ensures
        query_fold(ps) == query_fold(ps.subrange(0, k)),
    decreases ps.len() - k,
{
    if k < ps.len() {
        assert(ps.subrange(0, k + 1).drop_last() =~= ps.subrange(0, k));
        lemma_fold_error_stays(ps, k + 1);
    } else {
        assert(ps.subrange(0, k) =~= ps);
    }
}

impl FollowOption {
    /// Reads the text of a `follow` field.
    pub fn from_text(v: &str) -> (r: Result<FollowOption, OptionError>)
        ensures
            r == follow_spec(v@),
    {
        if v.unicode_len() == 0 || same_text(v, "yes") {
            return Ok(FollowOption::On);
        }
        match parse_u64(v) {
            Some(ms) => Ok(FollowOption::WithHeartbeat(ms)),
            None => {
                if same_text(v, "true") {
                    Ok(FollowOption::On)
                } else if same_text(v, "false") || same_text(v, "no") {
                    Ok(FollowOption::Off)
                } else {
                    Err(OptionError::InvalidFollow)
                }
            },
        }
    }
}

/// Reads the text of a `tail` field.
pub fn tail_from_text(v: &str) -> (r: bool)
    ensures
        r == tail_spec(v@),
{
    !(same_text(v, "false") || same_text(v, "no") || same_text(v, "0"))
}

impl ReadOptions {
    /// The options that decoded name/value pairs ask for: `follow`, `tail` and
    /// `last-id` are read, other names are ignored, and a field given twice or
    /// a value that cannot be read rejects the whole request.
    pub fn from_pairs(pairs: &Vec<(String, String)>) -> (r: Result<ReadOptions, OptionError>)
        ensures
            r == options_of_pairs(pairs_view(pairs@)),
    {
        let ghost ps = pairs_view(pairs@);
        let mut opts = ReadOptions { follow: FollowOption::Off, tail: false, last_id: None };
        let mut seen_follow = false;
        let mut seen_tail = false;
        let mut seen_last = false;
        let mut i: usize = 0;
        assert(ps.subrange(0, 0) =~= Seq::<(Seq<char>, Seq<char>)>::empty());
        while i < pairs.len()
            invariant
                ps == pairs_view(pairs@),
                i <= pairs.len(),
                query_fold(ps.subrange(0, i as int)) == Ok::<QueryState, OptionError>(
                    (opts, seen_follow, seen_tail, seen_last),
                ),
            decreases pairs.len() - i,
        {
            let name = pairs[i].0.as_str();
            let value = pairs[i].1.as_str();
            let ghost before = (opts, seen_follow, seen_tail, seen_last);
            proof {
                assert(ps.subrange(0, i + 1).drop_last() =~= ps.subrange(0, i as int));
                assert(ps.subrange(0, i + 1).last() == (name@, value@));
            }
            if same_text(name, "follow") {
                if seen_follow {
                    proof { lemma_fold_error_stays(ps, i + 1); }
                    assert(ps.subrange(0, ps.len() as int) =~= ps);
                    return Err(OptionError::DuplicateField);
                }
                match FollowOption::from_text(value) {
                    Ok(f) => {
                        opts = ReadOptions { follow: f, tail: opts.tail, last_id: opts.last_id };
                        seen_follow = true;
                    },
                    Err(e) => {
                        proof { lemma_fold_error_stays(ps, i + 1); }
                        return Err(e);
                    },
                }
            } else if same_text(name, "tail") {
                if seen_tail {
                    proof { lemma_fold_error_stays(ps, i + 1); }
                    return Err(OptionError::DuplicateField);
                }
                opts = ReadOptions { follow: opts.follow, tail: tail_from_text(value), last_id: opts.last_id };
                seen_tail = true;
            } else if same_text(name, "last-id") {
                if seen_last {
                    proof { lemma_fold_error_stays(ps, i + 1); }
                    return Err(OptionError::DuplicateField);
                }
                match parse_id(value) {
                    Some(id) => {
                        opts = ReadOptions { follow: opts.follow, tail: opts.tail, last_id: Some(id) };
                        seen_last = true;
                    },
                    None => {
                        proof { lemma_fold_error_stays(ps, i + 1); }
                        return Err(OptionError::InvalidLastId);
                    },
                }
            }
            i = i + 1;
        }
        assert(ps.subrange(0, i as int) =~= ps);
        Ok(opts)
    }

    /// The options that a form-encoded query string asks for; no query string
    /// asks for the defaults.
    pub fn from_query(query: Option<&str>) -> (r: Result<ReadOptions, OptionError>)
        ensures
            r == options_of_query(
                match query {
                    Some(q) => Some(q@),
                    None => None,
                },
            ),
    {
        match query {
            None => Ok(ReadOptions { follow: FollowOption::Off, tail: false, last_id: None }),
            Some(q) => match decode_form(q) {
                Some(pairs) => ReadOptions::from_pairs(&pairs),
                None => Err(OptionError::Malformed),
            },
        }
    }
}

} // verus!
