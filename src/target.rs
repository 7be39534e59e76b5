use vstd::prelude::*;
use vstd::string::{StrSliceExecFns, StringExecFns};

use crate::config::TargetGroupConfiguration;
use crate::text::{find_from, first_of, lemma_first_of_bounds, parse_port, parse_u16, trim_slashes, trimmed_slashes};

verus! {

/// A target written `host:port` or `host:port/uri`, read as its host name,
/// port and graft URI. The text before the first `:` is the host; the rest
/// splits at its first `/` into the port and the URI. Text without a `:` is
/// refused as it stands; a port that is not a `u16` is refused with the text
/// trimmed of slashes at both ends.
pub open spec fn parse_target(s: Seq<char>) -> Result<(Seq<char>, u16, Seq<char>), Seq<char>> {
    let c = first_of(s, ':');
    if c >= s.len() {
        Err(s)
    } else {
        let suffix = s.subrange(c + 1, s.len() as int);
        let d = first_of(suffix, '/');
        let uri = if d < suffix.len() {
            suffix.subrange(d + 1, suffix.len() as int)
        } else {
            Seq::empty()
        };
        match parse_u16(suffix.subrange(0, d)) {
            Some(port) => Ok((s.subrange(0, c), port, uri)),
            None => Err(trim_slashes(s)),
        }
    }
}

/// The pieces of `s` between its commas.
pub open spec fn split_commas(s: Seq<char>) -> Seq<Seq<char>>
    decreases s.len(),
{
    let c = first_of(s, ',');
    if 0 <= c < s.len() {
        seq![s.subrange(0, c)] + split_commas(s.subrange(c + 1, s.len() as int))
    } else {
        seq![s]
    }
}

/// Every piece read as a target, or the error of the first that is refused.
pub open spec fn parse_targets(pieces: Seq<Seq<char>>) -> Result<Seq<(Seq<char>, u16, Seq<char>)>, Seq<char>>
    decreases pieces.len(),
{
    if pieces.len() == 0 {
        Ok(Seq::empty())
    } else {
        match parse_targets(pieces.drop_last()) {
            Err(e) => Err(e),
            Ok(targets) => match parse_target(pieces.last()) {
                Ok(t) => Ok(targets.push(t)),
                Err(e) => Err(e),
            },
        }
    }
}

/// One upstream endpoint of a target group.
#[derive(Clone, Debug)]
pub struct Target {
    pub hostname: String,
    pub port: u16,
    pub uri: String,
}

impl View for Target {
    type V = (Seq<char>, u16, Seq<char>);

    open spec fn view(&self) -> (Seq<char>, u16, Seq<char>) {
        (self.hostname@, self.port, self.uri@)
    }
}

impl Target {
    /// Reads a target written `host:port` or `host:port/uri`.
    pub fn try_from(value: &str) -> (r: Result<Target, String>)
        ensures
            match r {
                Ok(t) => parse_target(value@) == Ok::<_, Seq<char>>(t@),
                Err(e) => parse_target(value@) == Err::<(Seq<char>, u16, Seq<char>), _>(e@),
            },
    {
        let n = value.unicode_len();
        let c = find_from(value, ':', 0);
        assert(value@.subrange(0, n as int) =~= value@);
        if c == n {
            return Err(String::from_str(value));
        }
        let hostname = value.substring_char(0, c);
        let suffix = value.substring_char(c + 1, n);
        let m = suffix.unicode_len();
        let d = find_from(suffix, '/', 0);
        assert(suffix@.subrange(0, m as int) =~= suffix@);
        let port_text = suffix.substring_char(0, d);
        let uri = if d < m {
            String::from_str(suffix.substring_char(d + 1, m))
        } else {
            String::new()
        };
        match parse_port(port_text) {
            Some(port) => Ok(Target { hostname: String::from_str(hostname), port, uri }),
            None => Err(String::from_str(trimmed_slashes(value))),
        }
    }
}

/// Why a target group could not be built.
#[derive(Clone, Debug)]
pub enum TargetGroupCreationError {
    /// A target was refused; the text says which.
    ParsingTargetsFailed(String),
}

/// The targets of one group, in the order they were configured.
pub struct TargetGroup {
    pub targets: Vec<Target>,
}

/// The pieces of `s` between its commas.
pub fn split_commas_exec(s: &str) -> (r: Vec<String>)
    ensures
        r@.map_values(|p: String| p@) == split_commas(s@),
{
    let n = s.unicode_len();
    let mut pieces: Vec<String> = Vec::new();
    let mut start: usize = 0;
    assert(s@.subrange(0, n as int) =~= s@);
    loop
        invariant
            n == s@.len(),
            start <= n,
            split_commas(s@) == pieces@.map_values(|p: String| p@) + split_commas(s@.subrange(start as int, n as int)),
        decreases n - start,
    {
        let ghost rest = s@.subrange(start as int, n as int);
        let e = find_from(s, ',', start);
        proof {
            lemma_first_of_bounds(rest, ',');
        }
        let piece = String::from_str(s.substring_char(start, e));
        let ghost before = pieces@.map_values(|p: String| p@);
        pieces.push(piece);
        assert(pieces@.map_values(|p: String| p@) =~= before.push(piece@));
        if e == n {
            assert(piece@ =~= rest);
            assert(split_commas(rest) == seq![rest]);
            assert(before + seq![rest] =~= before.push(piece@));
            return pieces;
        }
        assert(rest.subrange(0, e - start) =~= piece@);
        assert(rest.subrange(e - start + 1, rest.len() as int) =~= s@.subrange(e + 1, n as int));
        assert(before + (seq![piece@] + split_commas(s@.subrange(e + 1, n as int))) =~= before.push(piece@)
            + split_commas(s@.subrange(e + 1, n as int)));
        start = e + 1;
    }
}

impl TargetGroup {
    /// Reads the group's comma-separated targets; the first target that is
    /// refused refuses the group.
    pub fn try_from(value: &TargetGroupConfiguration) -> (r: Result<TargetGroup, TargetGroupCreationError>)
        ensures
            match r {
                Ok(g) => parse_targets(split_commas(value.targets@)) == Ok::<_, Seq<char>>(
                    g.targets@.map_values(|t: Target| t@),
                ),
                Err(TargetGroupCreationError::ParsingTargetsFailed(e)) => parse_targets(
                    split_commas(value.targets@),
                ) == Err::<Seq<(Seq<char>, u16, Seq<char>)>, _>(e@),
            },
    {
        let pieces = split_commas_exec(value.targets.as_str());
        let ghost texts = pieces@.map_values(|p: String| p@);
        let mut targets: Vec<Target> = Vec::new();
        let mut i: usize = 0;
        assert(texts.take(0) =~= Seq::<Seq<char>>::empty());
        assert(targets@.map_values(|t: Target| t@) =~= Seq::<(Seq<char>, u16, Seq<char>)>::empty());
        while i < pieces.len()
            invariant
                texts == pieces@.map_values(|p: String| p@),
                texts == split_commas(value.targets@),
                i <= pieces@.len(),
                parse_targets(texts.take(i as int)) == Ok::<_, Seq<char>>(targets@.map_values(|t: Target| t@)),
            decreases pieces@.len() - i,
        {
            assert(texts.take(i + 1).drop_last() =~= texts.take(i as int));
            assert(texts.take(i + 1).last() == pieces@[i as int]@);
            let ghost before = targets@.map_values(|t: Target| t@);
            match Target::try_from(pieces[i].as_str()) {
                Ok(t) => {
                    targets.push(t);
                    assert(targets@.map_values(|t: Target| t@) =~= before.push(t@));
                },
                Err(e) => {
                    proof {
                        lemma_error_persists(texts, i as int + 1);
                    }
                    return Err(TargetGroupCreationError::ParsingTargetsFailed(e));
                },
            }
            i = i + 1;
        }
        assert(texts.take(i as int) =~= texts);
        Ok(TargetGroup { targets })
    }
}

/// Once a prefix of the pieces is refused, so is the whole.
proof fn lemma_error_persists(pieces: Seq<Seq<char>>, k: int)
    requires
        0 <= k <= pieces.len(),
        parse_targets(pieces.take(k)) is Err,
    ensures
        parse_targets(pieces) == parse_targets(pieces.take(k)),
    decreases pieces.len() - k,
{
    if k < pieces.len() {
        assert(pieces.take(k + 1).drop_last() =~= pieces.take(k));
        lemma_error_persists(pieces, k + 1);
    } else {
        assert(pieces.take(k) =~= pieces);
    }
}

} // verus!
