//! Parsing of the system-wide process listings.
//!
//! The snapshot provider hands the library the raw text of two listings:
//! one of `(pid, parent pid)` pairs in CSV form behind two header lines,
//! and one of `(image name, pid)` rows.  Parsing is deliberately lenient:
//! a malformed or short row is skipped, never fatal, because partial
//! information still serves a best-effort kill.  Only a listing that
//! could not be taken at all is an error.

use vstd::prelude::*;
use crate::errors::ProcessError;
use crate::hierarchy::{ProcessLink, ParentMap, links_map};
use crate::strutil::{
    split_on,
    trimmed,
    unquoted,
    spec_parse_u32,
    fold,
    split_str,
    str_trim,
    str_trim_quotes,
    parse_u32,
    eq_ignore_case,
};

verus! {

/// The parent link a data row of the parent listing yields, if any: the
/// second field is the parent pid and the third the pid, both decimal and
/// positive; anything else is skipped.
pub open spec fn link_of_line(line: Seq<char>) -> Option<ProcessLink> {
    let fields = split_on(line, ',');
    if fields.len() >= 3 {
        match (spec_parse_u32(trimmed(fields[1])), spec_parse_u32(trimmed(fields[2]))) {
            (Some(parent), Some(pid)) => if parent > 0 && pid > 0 {
                Some(ProcessLink { pid, parent })
            } else {
                None
            },
            _ => None,
        }
    } else {
        None
    }
}

/// The links of a sequence of data rows, in order.
pub open spec fn links_of_lines(lines: Seq<Seq<char>>) -> Seq<ProcessLink>
    decreases lines.len(),
{
    if lines.len() == 0 {
        Seq::empty()
    } else {
        links_of_lines(lines.drop_last()) + match link_of_line(lines.last()) {
            Some(l) => seq![l],
            None => Seq::<ProcessLink>::empty(),
        }
    }
}

/// Every parent link the raw listing reports: its lines after the two
/// header lines, each read by `link_of_line`.
pub open spec fn parent_links_of(text: Seq<char>) -> Seq<ProcessLink> {
    let lines = split_on(text, '\n');
    if lines.len() >= 2 {
        links_of_lines(lines.skip(2))
    } else {
        Seq::empty()
    }
}

/// Parse the raw parent listing into a snapshot map; later rows override
/// earlier ones for the same pid.
pub fn parse_parent_map(text: &str) -> (r: ParentMap)
    ensures
        r.wf(),
        r@ == links_map(parent_links_of(text@)),
{
    let lines = split_str(text, '\n');
    let ghost all_lines = lines.deep_view();
    let mut map = ParentMap::new();
    let n = lines.len();
    if n < 2 {
        proof {
            assert(map@ =~= links_map(parent_links_of(text@)));
        }
        return map;
    }
    let mut i: usize = 2;
    proof {
        assert(all_lines.skip(2).take(0) =~= Seq::<Seq<char>>::empty());
    }
    while i < n
        invariant
            n == lines@.len(),
            all_lines == lines.deep_view(),
            all_lines == split_on(text@, '\n'),
            n >= 2,
            2 <= i <= n,
            map.wf(),
            map@ == links_map(links_of_lines(all_lines.skip(2).take(i - 2))),
        decreases n - i,
    {
        let ghost pre = all_lines.skip(2).take(i - 2);
        let ghost post = all_lines.skip(2).take(i - 2 + 1);
        proof {
            assert(post.drop_last() =~~= pre);
            assert(post.last() == all_lines[i as int]);
            assert(lines@[i as int]@ == all_lines[i as int]);
        }
        let fields = split_str(lines[i].as_str(), ',');
        let ghost spec_fields = split_on(all_lines[i as int], ',');
        proof {
            assert(fields.deep_view() == spec_fields);
            assert(fields@.len() == spec_fields.len());
        }
        if fields.len() >= 3 {
            proof {
                assert(fields@[1]@ == spec_fields[1]);
                assert(fields@[2]@ == spec_fields[2]);
            }
            let parent_opt = parse_u32(str_trim(fields[1].as_str()));
            let pid_opt = parse_u32(str_trim(fields[2].as_str()));
            if let (Some(parent), Some(pid)) = (parent_opt, pid_opt) {
                if parent > 0 && pid > 0 {
                    let ghost map_pre = map@;
                    map.insert(pid, parent);
                    proof {
                        let l = ProcessLink { pid, parent };
                        assert(link_of_line(all_lines[i as int]) == Some(l));
                        assert(links_of_lines(post) == links_of_lines(pre) + seq![l]);
                        lemma_links_map_push(links_of_lines(pre), l);
                        assert(links_of_lines(pre) + seq![l] =~= links_of_lines(pre).push(l));
                    }
                }
            }
        }
        proof {
            if link_of_line(all_lines[i as int]) is None {
                assert(links_of_lines(post) =~= links_of_lines(pre));
            }
        }
        i = i + 1;
    }
    proof {
        assert(all_lines.skip(2).take(n - 2) =~~= all_lines.skip(2));
    }
    map
}

proof fn lemma_links_map_push(s: Seq<ProcessLink>, l: ProcessLink)
    ensures
        links_map(s.push(l)) == links_map(s).insert(l.pid, l.parent),
{
    assert(s.push(l).drop_last() =~= s);
    assert(s.push(l).last() == l);
}

/// Build the parent-map snapshot from a listing command's results: a
/// failed command is a `SnapshotUnavailable` error carrying its
/// diagnostic text — an empty map must never be mistaken for "no
/// processes" — and a successful one is parsed leniently.
pub fn parent_map_from_output(listing_succeeded: bool, stdout: &str, stderr: &str) -> (r: Result<
    ParentMap,
    ProcessError,
>)
    ensures
        listing_succeeded ==> (r matches Ok(m) && m.wf() && m@ == links_map(
            parent_links_of(stdout@),
        )),
        !listing_succeeded ==> (r matches Err(ProcessError::SnapshotUnavailable(m)) && m@
            == stderr@),
{
    if listing_succeeded {
        Ok(parse_parent_map(stdout))
    } else {
        Err(ProcessError::SnapshotUnavailable(stderr.to_owned()))
    }
}

/// One row of the name listing: a pid and the image name it reported.
#[derive(Debug, Clone)]
pub struct NameRecord {
    pub pid: u32,
    pub name: String,
}

impl View for NameRecord {
    type V = (u32, Seq<char>);

    open spec fn view(&self) -> (u32, Seq<char>) {
        (self.pid, self.name@)
    }
}

impl DeepView for NameRecord {
    type V = (u32, Seq<char>);

    open spec fn deep_view(&self) -> (u32, Seq<char>) {
        self.view()
    }
}

/// The record a row of the name listing yields, if any: the first field
/// is the quoted image name and the second the quoted decimal pid.
pub open spec fn record_of_line(line: Seq<char>) -> Option<(u32, Seq<char>)> {
    let fields = split_on(line, ',');
    if fields.len() >= 2 {
        match spec_parse_u32(trimmed(unquoted(fields[1]))) {
            Some(pid) => Some((pid, trimmed(unquoted(fields[0])))),
            None => None,
        }
    } else {
        None
    }
}

/// The records of a sequence of rows, in order.
pub open spec fn records_of_lines(lines: Seq<Seq<char>>) -> Seq<(u32, Seq<char>)>
    decreases lines.len(),
{
    if lines.len() == 0 {
        Seq::empty()
    } else {
        records_of_lines(lines.drop_last()) + match record_of_line(lines.last()) {
            Some(rec) => seq![rec],
            None => Seq::<(u32, Seq<char>)>::empty(),
        }
    }
}

/// Every record the raw name listing reports, row by row.
pub open spec fn records_of(text: Seq<char>) -> Seq<(u32, Seq<char>)> {
    records_of_lines(split_on(text, '\n'))
}

/// Parse the raw name listing into its records; malformed rows are
/// skipped.
pub fn parse_name_records(text: &str) -> (r: Vec<NameRecord>)
    ensures
        r.deep_view() == records_of(text@),
{
    let lines = split_str(text, '\n');
    let ghost all_lines = lines.deep_view();
    let mut out: Vec<NameRecord> = Vec::new();
    let n = lines.len();
    let mut i: usize = 0;
    proof {
        assert(all_lines.take(0) =~= Seq::<Seq<char>>::empty());
        assert(out.deep_view() =~= records_of_lines(all_lines.take(0)));
    }
    while i < n
        invariant
            n == lines@.len(),
            all_lines == lines.deep_view(),
            all_lines == split_on(text@, '\n'),
            i <= n,
            out.deep_view() == records_of_lines(all_lines.take(i as int)),
        decreases n - i,
    {
        let ghost pre = all_lines.take(i as int);
        let ghost post = all_lines.take(i + 1);
        proof {
            assert(post.drop_last() =~~= pre);
            assert(post.last() == all_lines[i as int]);
            assert(lines@[i as int]@ == all_lines[i as int]);
        }
        let fields = split_str(lines[i].as_str(), ',');
        let ghost spec_fields = split_on(all_lines[i as int], ',');
        if fields.len() >= 2 {
            proof {
                assert(fields@[0]@ == spec_fields[0]);
                assert(fields@[1]@ == spec_fields[1]);
            }
            let pid_opt = parse_u32(str_trim(str_trim_quotes(fields[1].as_str())));
            if let Some(pid) = pid_opt {
                let name = str_trim(str_trim_quotes(fields[0].as_str())).to_owned();
                let ghost out_pre = out.deep_view();
                out.push(NameRecord { pid, name });
                proof {
                    let rec = (pid, trimmed(unquoted(spec_fields[0])));
                    assert(record_of_line(all_lines[i as int]) == Some(rec));
                    assert(out.deep_view() =~~= out_pre + seq![rec]);
                    assert(records_of_lines(post) == records_of_lines(pre) + seq![rec]);
                }
            }
        }
        proof {
            if record_of_line(all_lines[i as int]) is None {
                assert(records_of_lines(post) =~= records_of_lines(pre));
            }
        }
        i = i + 1;
    }
    proof {
        assert(all_lines.take(n as int) =~~= all_lines);
    }
    out
}

/// The image name the listing reports for `pid`: the last row for that
/// pid wins, as reinserting a key in a hash map would.
pub open spec fn name_of(rs: Seq<(u32, Seq<char>)>, pid: u32) -> Option<Seq<char>>
    decreases rs.len(),
{
    if rs.len() == 0 {
        None
    } else if rs.last().0 == pid {
        Some(rs.last().1)
    } else {
        name_of(rs.drop_last(), pid)
    }
}

/// Look up the reported image name of `pid`.
pub fn lookup_name(records: &Vec<NameRecord>, pid: u32) -> (r: Option<String>)
    ensures
        match r {
            Some(s) => name_of(records.deep_view(), pid) == Some(s@),
            None => name_of(records.deep_view(), pid) is None,
        },
{
    let ghost rv = records.deep_view();
    let mut i: usize = records.len();
    proof {
        assert(rv.take(i as int) =~~= rv);
    }
    while i > 0
        invariant
            rv == records.deep_view(),
            i <= records@.len(),
            rv.len() == records@.len(),
            name_of(rv, pid) == name_of(rv.take(i as int), pid),
        decreases i,
    {
        proof {
            assert(rv.take(i as int).last() == rv[i - 1]);
            assert(rv.take(i as int).drop_last() =~~= rv.take(i - 1));
            assert(rv[i - 1] == records@[i - 1]@);
        }
        if records[i - 1].pid == pid {
            return Some(records[i - 1].name.clone());
        }
        i = i - 1;
    }
    proof {
        assert(rv.take(0) =~~= Seq::<(u32, Seq<char>)>::empty());
    }
    None
}

/// The pids whose reported image name equals `name`, compared without
/// regard to letter case, in listing order.
pub open spec fn matching_pids(rs: Seq<(u32, Seq<char>)>, name: Seq<char>) -> Seq<u32>
    decreases rs.len(),
{
    if rs.len() == 0 {
        Seq::empty()
    } else {
        matching_pids(rs.drop_last(), name) + if fold(rs.last().1) == fold(name) {
            seq![rs.last().0]
        } else {
            Seq::<u32>::empty()
        }
    }
}

/// Filter the listing's records down to the pids running a given image,
/// case-insensitively.
pub fn filter_pids_by_name(records: &Vec<NameRecord>, name: &str) -> (r: Vec<u32>)
    ensures
        r@ == matching_pids(records.deep_view(), name@),
{
    let ghost rv = records.deep_view();
    let mut out: Vec<u32> = Vec::new();
    let n = records.len();
    let mut i: usize = 0;
    proof {
        assert(rv.take(0) =~~= Seq::<(u32, Seq<char>)>::empty());
        assert(out@ =~= matching_pids(rv.take(0), name@));
    }
    while i < n
        invariant
            rv == records.deep_view(),
            n == records@.len(),
            rv.len() == n,
            i <= n,
            out@ == matching_pids(rv.take(i as int), name@),
        decreases n - i,
    {
        proof {
            assert(rv.take(i + 1).last() == rv[i as int]);
            assert(rv.take(i + 1).drop_last() =~~= rv.take(i as int));
            assert(rv[i as int] == records@[i as int]@);
        }
        if eq_ignore_case(records[i].name.as_str(), name) {
            out.push(records[i].pid);
            proof {
                assert(out@ =~= matching_pids(rv.take(i + 1), name@));
            }
        } else {
            proof {
                assert(out@ =~= matching_pids(rv.take(i + 1), name@));
            }
        }
        i = i + 1;
    }
    proof {
        assert(rv.take(n as int) =~~= rv);
    }
    out
}

/// The pids running a given image, from a listing command's results: a
/// failed listing is a `SnapshotUnavailable` error carrying its
/// diagnostic text; a successful one that merely matches nothing is an
/// empty list, not an error.
pub fn pids_from_output(listing_succeeded: bool, stdout: &str, stderr: &str, name: &str) -> (r:
    Result<Vec<u32>, ProcessError>)
    ensures
        listing_succeeded ==> (r matches Ok(v) && v@ == matching_pids(records_of(stdout@), name@)),
        !listing_succeeded ==> (r matches Err(ProcessError::SnapshotUnavailable(m)) && m@
            == stderr@),
{
    if listing_succeeded {
        let records = parse_name_records(stdout);
        Ok(filter_pids_by_name(&records, name))
    } else {
        Err(ProcessError::SnapshotUnavailable(stderr.to_owned()))
    }
}

} // verus!
