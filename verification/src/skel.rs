//! The plugin's calling convention: the invocation arguments, the
//! `K=V;K2=V2` argument string, and the version bridge that decides which
//! generation a payload is read and written in.

use vstd::prelude::*;

use crate::types_020::{spec_020_from_latest, spec_020_to_latest, CNI020Result, Cni020ResultView};
use crate::types_040::{spec_040_from_latest, spec_040_to_latest, CNI040Result, Cni040ResultView};
use crate::types_100::{clone_interfaces, CNI100IPAddress, CNI100Result, Cni100ResultView};
use crate::types_common::{clone_dns, clone_routes};
use crate::text::{split_chars, split_on, str_eq, str_to_chars};

verus! {

/// The map built from `K=V` entries, later entries overwriting earlier
/// ones.
pub open spec fn entries_map(s: Seq<(Seq<char>, Seq<char>)>) -> Map<Seq<char>, Seq<char>>
    decreases s.len(),
{
    if s.len() == 0 {
        Map::empty()
    } else {
        entries_map(s.drop_last()).insert(s.last().0, s.last().1)
    }
}

/// The key-to-value map an argument string names: segments split on `;`,
/// each split on `=`; a lone key maps to the empty text, a `K=V` pair to
/// its value, a segment with more parts is dropped; a later segment wins.
pub open spec fn spec_parse_args(s: Seq<char>) -> Map<Seq<char>, Seq<char>> {
    segments_map(split_on(s, ';'))
}

/// The map the split segments name, in order.
pub open spec fn segments_map(segs: Seq<Seq<char>>) -> Map<Seq<char>, Seq<char>>
    decreases segs.len(),
{
    if segs.len() == 0 {
        Map::empty()
    } else {
        let m = segments_map(segs.drop_last());
        let parts = split_on(segs.last(), '=');
        if parts.len() == 1 {
            m.insert(parts[0], Seq::empty())
        } else if parts.len() == 2 {
            m.insert(parts[0], parts[1])
        } else {
            m
        }
    }
}

/// The arguments of an invocation, as key-value pairs in the order they
/// stood in the argument string.
#[derive(Clone, Debug)]
pub struct ArgsMap {
    pub entries: Vec<(String, String)>,
}

impl View for ArgsMap {
    type V = Map<Seq<char>, Seq<char>>;

    open spec fn view(&self) -> Map<Seq<char>, Seq<char>> {
        entries_map(Seq::new(self.entries@.len(), |i: int| (self.entries@[i].0@, self.entries@[i].1@)))
    }
}

impl ArgsMap {
    /// The value the map holds for `key`: the last entry with that key
    /// decides.
    pub fn get(&self, key: &str) -> (r: Option<&String>)
        ensures
            match r {
                Some(v) => self@.contains_key(key@) && v@ == self@[key@],
                None => !self@.contains_key(key@),
            },
    {
        let ghost es = Seq::new(
            self.entries@.len(),
            |i: int| (self.entries@[i].0@, self.entries@[i].1@),
        );
        let mut i: usize = self.entries.len();
        proof {
            assert(es.take(i as int) =~= es);
        }
        while i > 0
            invariant
                0 <= i <= self.entries@.len(),
                es == Seq::new(
                    self.entries@.len(),
                    |j: int| (self.entries@[j].0@, self.entries@[j].1@),
                ),
                entries_map(es).contains_key(key@) == entries_map(es.take(i as int)).contains_key(
                    key@,
                ),
                entries_map(es).contains_key(key@) ==> entries_map(es)[key@] == entries_map(
                    es.take(i as int),
                )[key@],
            decreases i,
        {
            proof {
                assert(es.take(i as int).drop_last() =~= es.take(i - 1));
                assert(es.take(i as int).last() == es[i - 1]);
            }
            if str_eq(self.entries[i - 1].0.as_str(), key) {
                return Some(&self.entries[i - 1].1);
            }
            i -= 1;
        }
        proof {
            assert(es.take(0) =~= Seq::<(Seq<char>, Seq<char>)>::empty());
        }
        None
    }
}

/// Reads an argument string into its map, as `spec_parse_args` names it.
pub fn get_args(args: &str) -> (r: ArgsMap)
    ensures
        r@ == spec_parse_args(args@),
{
    let cs = str_to_chars(args);
    let segs = split_chars(cs.as_slice(), ';');
    let ghost ssegs = split_on(args@, ';');
    let mut entries: Vec<(String, String)> = Vec::new();
    let mut i: usize = 0;
    while i < segs.len()
        invariant
            0 <= i <= segs@.len(),
            segs@.len() == ssegs.len(),
            ssegs == split_on(args@, ';'),
            forall|j: int| 0 <= j < segs@.len() ==> #[trigger] segs@[j]@ == ssegs[j],
            entries_map(
                Seq::new(entries@.len(), |j: int| (entries@[j].0@, entries@[j].1@)),
            ) == segments_map(ssegs.take(i as int)),
        decreases segs@.len() - i,
    {
        let ghost pre = Seq::new(entries@.len(), |j: int| (entries@[j].0@, entries@[j].1@));
        let parts = split_chars(segs[i].as_slice(), '=');
        proof {
            assert(ssegs.take(i + 1).drop_last() =~= ssegs.take(i as int));
            assert(ssegs.take(i + 1).last() == ssegs[i as int]);
        }
        if parts.len() == 1 {
            let key = chars_to_string(parts[0].as_slice());
            entries.push((key, String::new()));
            proof {
                let post = Seq::new(entries@.len(), |j: int| (entries@[j].0@, entries@[j].1@));
                assert(post.drop_last() =~= pre);
                assert(post.last().0 == split_on(ssegs[i as int], '=')[0]);
                assert(post.last().1 =~= Seq::<char>::empty());
                assert(entries_map(post) =~= segments_map(ssegs.take(i + 1)));
            }
        } else if parts.len() == 2 {
            let key = chars_to_string(parts[0].as_slice());
            let val = chars_to_string(parts[1].as_slice());
            entries.push((key, val));
            proof {
                let post = Seq::new(entries@.len(), |j: int| (entries@[j].0@, entries@[j].1@));
                assert(post.drop_last() =~= pre);
                assert(post.last().0 == split_on(ssegs[i as int], '=')[0]);
                assert(post.last().1 == split_on(ssegs[i as int], '=')[1]);
                assert(entries_map(post) =~= segments_map(ssegs.take(i + 1)));
            }
        } else {
            proof {
                assert(segments_map(ssegs.take(i + 1)) =~= segments_map(ssegs.take(i as int)));
            }
        }
        i += 1;
    }
    proof {
        assert(ssegs.take(ssegs.len() as int) =~= ssegs);
    }
    ArgsMap { entries }
}

/// Relies on std's `String::from_iter` through `collect`: the collected
/// string holds exactly the given characters, in order.
#[verifier::external_body]
pub(crate) fn chars_to_string(cs: &[char]) -> (r: String)
    ensures
        r@ == cs@,
{
    cs.iter().collect()
}

} // verus!

verus! {

/// The arguments of one plugin invocation.
#[derive(Debug)]
pub struct CmdArgs {
    pub container_id: String,
    pub netns: String,
    pub ifname: String,
    pub args: ArgsMap,
    pub path: String,
    pub stdin_data: String,
}

/// How gathering the invocation arguments fails.
#[derive(Clone, Debug, PartialEq, Eq)]
pub enum CmdArgsError<'a> {
    /// The invocation's input could not be read.
    FailedReadStdIn,
    /// A required argument is missing; the payload names it.
    MissingArgs(&'a str),
}

/// Whether a missing argument is an error for this command: the three
/// flags say whether the attach, check and detach commands require it.
pub open spec fn spec_arg_required(command: Seq<char>, required_command: (bool, bool, bool)) -> bool {
    ||| (command == "ADD"@ && required_command.0)
    ||| (command == "CHECK"@ && required_command.1)
    ||| (command == "DEL"@ && required_command.2)
}

/// Settles one invocation argument: a present value is taken as it is; a
/// missing one is an error exactly when the command requires it, and the
/// empty text otherwise.
pub fn get_cmdargs_env<'a>(
    command: &str,
    arg_name: &'a str,
    value: Option<String>,
    required_command: (bool, bool, bool),
) -> (r: Result<String, CmdArgsError<'a>>)
    ensures
        match value {
            Some(v) => r == Ok::<String, CmdArgsError<'a>>(v),
            None => if spec_arg_required(command@, required_command) {
                r == Err::<String, CmdArgsError<'a>>(CmdArgsError::MissingArgs(arg_name))
            } else {
                r is Ok && r->Ok_0@ == Seq::<char>::empty()
            },
        },
{
    let (add, check, del) = required_command;
    match value {
        Some(v) => Ok(v),
        None => {
            if str_eq(command, "ADD") && add {
                return Err(CmdArgsError::MissingArgs(arg_name));
            }
            if str_eq(command, "CHECK") && check {
                return Err(CmdArgsError::MissingArgs(arg_name));
            }
            if str_eq(command, "DEL") && del {
                return Err(CmdArgsError::MissingArgs(arg_name));
            }
            Ok(String::new())
        },
    }
}

/// A result in whichever generation a caller speaks.
#[derive(Clone, Debug, PartialEq, Eq)]
pub enum VersionedResult {
    V020(CNI020Result),
    V040(CNI040Result),
    V100(CNI100Result),
}

/// The mathematical content of a versioned result.
pub ghost enum VersionedResultView {
    V020(Cni020ResultView),
    V040(Cni040ResultView),
    V100(Cni100ResultView),
}

impl View for VersionedResult {
    type V = VersionedResultView;

    open spec fn view(&self) -> VersionedResultView {
        match self {
            VersionedResult::V020(r) => VersionedResultView::V020(r@),
            VersionedResult::V040(r) => VersionedResultView::V040(r@),
            VersionedResult::V100(r) => VersionedResultView::V100(r@),
        }
    }
}

/// The wire generations: `GenA` is the one-address-per-family pair of
/// versions, `GenB` the flat-list family, `GenC` the canonical one.
#[derive(Clone, Copy, Debug, PartialEq, Eq, Structural)]
pub enum Generation {
    GenA,
    GenB,
    GenC,
}

/// The generation a version text names, by exact match against the
/// recognized set; an unrecognized text names none.
pub open spec fn spec_version_generation(v: Seq<char>) -> Option<Generation> {
    if v == "0.1.0"@ || v == "0.2.0"@ {
        Some(Generation::GenA)
    } else if v == "0.3.0"@ || v == "0.3.1"@ || v == "0.4.0"@ {
        Some(Generation::GenB)
    } else if v == "1.0.0"@ {
        Some(Generation::GenC)
    } else {
        None
    }
}

/// Names the generation a version text belongs to, or nothing for an
/// unsupported version.
pub fn version_generation(v: &str) -> (r: Option<Generation>)
    ensures
        r == spec_version_generation(v@),
{
    if str_eq(v, "0.1.0") || str_eq(v, "0.2.0") {
        Some(Generation::GenA)
    } else if str_eq(v, "0.3.0") || str_eq(v, "0.3.1") || str_eq(v, "0.4.0") {
        Some(Generation::GenB)
    } else if str_eq(v, "1.0.0") {
        Some(Generation::GenC)
    } else {
        None
    }
}

/// The version that governs a payload: the one embedded in its prior
/// result when there is one, else the one the request declared.
pub fn effective_version(embedded: Option<String>, declared: &str) -> (r: String)
    ensures
        match embedded {
            Some(e) => r == e,
            None => r@ == declared@,
        },
{
    match embedded {
        Some(e) => e,
        None => declared.to_owned(),
    }
}

/// Copies a canonical result.
pub fn clone_result(r: &CNI100Result) -> (out: CNI100Result)
    ensures
        out@ == r@,
{
    let mut ips: Vec<CNI100IPAddress> = Vec::new();
    let mut i: usize = 0;
    while i < r.ips.len()
        invariant
            0 <= i <= r.ips@.len(),
            ips@ == r.ips@.take(i as int),
        decreases r.ips@.len() - i,
    {
        ips.push(r.ips[i]);
        proof {
            assert(ips@ =~= r.ips@.take(i + 1));
        }
        i += 1;
    }
    proof {
        assert(r.ips@.take(r.ips@.len() as int) =~= r.ips@);
    }
    let out = CNI100Result {
        cni_version: r.cni_version.clone(),
        interfaces: clone_interfaces(&r.interfaces),
        ips,
        routes: clone_routes(&r.routes),
        dns: clone_dns(&r.dns),
    };
    proof {
        assert(out@ =~~= r@);
    }
    out
}

/// What a versioned result means in the canonical generation.
pub open spec fn spec_to_canonical(r: VersionedResultView) -> Cni100ResultView {
    match r {
        VersionedResultView::V020(g) => spec_020_to_latest(g),
        VersionedResultView::V040(g) => spec_040_to_latest(g),
        VersionedResultView::V100(g) => g,
    }
}

/// Converts a decoded result of any generation to the canonical one.
pub fn convert_to_canonical(r: &VersionedResult) -> (out: CNI100Result)
    ensures
        out@ == spec_to_canonical(r@),
{
    match r {
        VersionedResult::V020(g) => g.convert_to_latest(),
        VersionedResult::V040(g) => g.convert_to_latest(),
        VersionedResult::V100(g) => clone_result(g),
    }
}

/// How rendering a result for a caller fails.
#[derive(Clone, Debug, PartialEq, Eq)]
pub enum ResultError {
    /// The rendered result could not be encoded.
    JsonEncodeError,
    /// The requested version is unsupported; the payload holds it.
    CNIVersionError(String),
}

/// What rendering a canonical result in a version yields: the matching
/// generation's writing of it, or the version error for an unsupported
/// version.
pub open spec fn spec_result_for_version(l: Cni100ResultView, v: Seq<char>) -> Result<
    VersionedResultView,
    Seq<char>,
> {
    match spec_version_generation(v) {
        Some(Generation::GenA) => Ok(VersionedResultView::V020(spec_020_from_latest(l, v))),
        Some(Generation::GenB) => Ok(VersionedResultView::V040(spec_040_from_latest(l, v))),
        Some(Generation::GenC) => Ok(VersionedResultView::V100(l)),
        None => Err(v),
    }
}

/// Renders a canonical result in the caller's version: exactly the
/// conversion `spec_result_for_version` names, and the version error,
/// holding the offending version text, for an unsupported version.
pub fn result_for_version(latest: &CNI100Result, cni_version: &str) -> (r: Result<
    VersionedResult,
    ResultError,
>)
    ensures
        match r {
            Ok(out) => spec_result_for_version(latest@, cni_version@) == Ok::<
                VersionedResultView,
                Seq<char>,
            >(out@),
            Err(ResultError::CNIVersionError(v)) => spec_result_for_version(latest@, cni_version@)
                == Err::<VersionedResultView, Seq<char>>(v@),
            Err(ResultError::JsonEncodeError) => false,
        },
{
    match version_generation(cni_version) {
        Some(Generation::GenA) => Ok(
            VersionedResult::V020(CNI020Result::convert_from_latest(latest, cni_version)),
        ),
        Some(Generation::GenB) => Ok(
            VersionedResult::V040(CNI040Result::convert_from_latest(latest, cni_version)),
        ),
        Some(Generation::GenC) => Ok(VersionedResult::V100(clone_result(latest))),
        None => Err(ResultError::CNIVersionError(cni_version.to_owned())),
    }
}

} // verus!
