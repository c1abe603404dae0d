//! The endpoint builder: catalog lookup (by name or interactively), address
//! resolution, and synthesis of the bindable socket and the shareable URL.

use vstd::prelude::*;
use vstd::pervasive::unreached;
use crate::address::HostSocket;
use crate::address::IpAddress;
use crate::address::create_socket;
use crate::address::create_url;
use crate::address::display_of;
use crate::address::socket_of;
use crate::address::url_of;
use crate::catalog::InterfaceCatalog;
use crate::catalog::InterfaceRecord;
use crate::catalog::NetworkInterfaceExistanceError;
use crate::catalog::lemma_lookup_nonempty;
use crate::catalog::lemma_name_found_lookup;
use crate::catalog::lookup_interface;
use crate::catalog::lookup_rec;
use crate::order::lemma_sort_names_contains;
use crate::order::lemma_sort_names_len;
use crate::order::sort_names;
use crate::order::sort_strings;
use crate::order::views;
use crate::resolver::resolve_address;
use crate::resolver::spec_select;
use crate::resolver::tagged_display;
use crate::selection::ChoiceError;
use crate::selection::SelectError;
use crate::selection::select_item;

verus! {

/// Why a resolution failed: a malformed selection line, a numeric selection
/// out of range, or an explicitly requested interface that does not exist.
#[derive(Debug)]
pub enum ResolveError {
    Parse,
    Bounds(ChoiceError),
    InterfaceNotFound(NetworkInterfaceExistanceError),
}

/// What a resolution produces: the shareable URL and the bindable socket,
/// both synthesized from one chosen address and port.
#[derive(Debug)]
pub struct ResolvedEndpoint {
    pub url: String,
    pub socket: HostSocket,
}

/// A selection failure, carried unchanged to the top of the pipeline.
pub open spec fn lift_select_err(e: SelectError) -> ResolveError {
    match e {
        SelectError::Parse => ResolveError::Parse,
        SelectError::Bounds(c) => ResolveError::Bounds(c),
    }
}

fn lift_error(e: SelectError) -> (r: ResolveError)
    ensures
        r == lift_select_err(e),
{
    match e {
        SelectError::Parse => ResolveError::Parse,
        SelectError::Bounds(c) => ResolveError::Bounds(c),
    }
}

/// The names of a record sequence, in record order.
pub open spec fn names_of(s: Seq<InterfaceRecord>) -> Seq<Seq<char>> {
    s.map_values(|r: InterfaceRecord| r.name@)
}

/// The answer to the prompt numbered `i`; a missing answer reads as an empty
/// line, as an exhausted input stream would.
pub open spec fn line_at(lines: Seq<Seq<char>>, i: int) -> Seq<char> {
    if 0 <= i < lines.len() {
        lines[i]
    } else {
        Seq::empty()
    }
}

fn line_string(lines: &Vec<String>, i: usize) -> (r: String)
    ensures
        r@ == line_at(views(lines@), i as int),
{
    if i < lines.len() {
        lines[i].clone()
    } else {
        String::new()
    }
}

/// How the address stage and the synthesis relate the result to the chosen
/// interface's address list, the answer line, and the port.
pub open spec fn endpoint_outcome(
    r: Result<ResolvedEndpoint, ResolveError>,
    addrs: Seq<IpAddress>,
    line: Seq<char>,
    port: u16,
) -> bool {
    match spec_select(line, addrs.len()) {
        Err(e) => r matches Err(x) && x == lift_select_err(e),
        Ok(j) => r matches Ok(ep) && ep.socket == socket_of(addrs[j as int], port) && ep.url@
            == url_of(addrs[j as int] is V4, display_of(addrs[j as int]), port as nat),
    }
}

/// The catalog's interface names, sorted for a deterministic prompt.
pub fn sorted_names(catalog: &InterfaceCatalog) -> (r: Vec<String>)
    ensures
        views(r@) == sort_names(names_of(catalog.records@)),
{
    let mut names: Vec<String> = Vec::new();
    let mut i: usize = 0;
    while i < catalog.records.len()
        invariant
            0 <= i <= catalog.records@.len(),
            names@.len() == i,
            forall|k: int| 0 <= k < i ==> (#[trigger] names@[k])@ == catalog.records@[k].name@,
        decreases catalog.records@.len() - i,
    {
        names.push(catalog.records[i].name.clone());
        i += 1;
    }
    proof {
        assert(views(names@) =~= names_of(catalog.records@));
    }
    sort_strings(names)
}

/// Resolves the endpoint to advertise. The interface comes from the
/// requested name, if one is given, else from a selection over the sorted
/// catalog names answered by the first line; an address of that interface is
/// then selected by the next line; socket and URL are synthesized from the
/// chosen address and the port. A failure at any step ends the resolution
/// with that step's error, unchanged.
pub fn build_endpoint(
    catalog: &InterfaceCatalog,
    requested: Option<&String>,
    port: u16,
    lines: &Vec<String>,
) -> (r: Result<ResolvedEndpoint, ResolveError>)
    requires
        catalog.wf(),
        requested is Some || catalog.records@.len() > 0,
    ensures
        ({
            let cat = catalog.records@;
            let lv = views(lines@);
            match requested {
                Some(n) => match lookup_rec(cat, n@) {
                    None => r matches Err(e) && e matches ResolveError::InterfaceNotFound(x)
                        && x.interface@ == n@,
                    Some(addrs) => endpoint_outcome(r, addrs, line_at(lv, 0), port),
                },
                None => {
                    let names = sort_names(names_of(cat));
                    match spec_select(line_at(lv, 0), names.len()) {
                        Err(e) => r matches Err(x) && x == lift_select_err(e),
                        Ok(i) => match lookup_rec(cat, names[i as int]) {
                            Some(addrs) => endpoint_outcome(r, addrs, line_at(lv, 1), port),
                            None => false,
                        },
                    }
                },
            }
        }),
{
    let picked_pair = match requested {
        Some(name) => {
            match lookup_interface(catalog, name) {
                Some(rec) => (rec, line_string(lines, 0)),
                None => {
                    return Err(
                        ResolveError::InterfaceNotFound(
                            NetworkInterfaceExistanceError::new(name.clone()),
                        ),
                    );
                },
            }
        },
        None => {
            let names = sorted_names(catalog);
            proof {
                lemma_sort_names_len(names_of(catalog.records@));
            }
            let picked = match select_item(line_string(lines, 0), names.as_slice()) {
                Ok(p) => p,
                Err(e) => {
                    return Err(lift_error(e));
                },
            };
            proof {
                let cat = catalog.records@;
                let snames = sort_names(names_of(cat));
                assert(snames.contains(snames[picked.0 as int]));
                lemma_sort_names_contains(names_of(cat), snames[picked.0 as int]);
                let k = choose|k: int|
                    0 <= k < names_of(cat).len() && names_of(cat)[k] == snames[picked.0 as int];
                assert(cat[k].name@ == snames[picked.0 as int]);
                lemma_name_found_lookup(cat, snames[picked.0 as int]);
            }
            match lookup_interface(catalog, &picked.1) {
                Some(rec) => (rec, line_string(lines, 1)),
                None => unreached(),
            }
        },
    };
    let (rec, addr_line) = picked_pair;
    proof {
        assert(lookup_rec(catalog.records@, rec.name@) == Some(rec.addrs@));
        lemma_lookup_nonempty(catalog.records@, rec.name@);
    }
    let resolved = match resolve_address(&rec.addrs, addr_line) {
        Ok(p) => p,
        Err(e) => {
            return Err(lift_error(e));
        },
    };
    let addr = resolved.1;
    let socket = create_socket(addr, port);
    let url = create_url(tagged_display(&addr), port);
    Ok(ResolvedEndpoint { url, socket })
}

} // verus!
