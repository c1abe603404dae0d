//! The address resolver: maps an interface's assigned addresses to display
//! strings, drives the selection protocol over them, and maps the chosen
//! index back to the binary address.

use vstd::prelude::*;
use crate::address::IpAddress;
use crate::address::IpString;
use crate::address::display_of;
use crate::address::display_string;
use crate::address::label_of;
use crate::parse::choice_of;
use crate::selection::ChoiceError;
use crate::selection::SelectError;
use crate::selection::select_item;

verus! {

/// The index a selection line picks among `count` candidates, or how the
/// selection fails.
pub open spec fn spec_select(line: Seq<char>, count: nat) -> Result<nat, SelectError> {
    match choice_of(line) {
        None => Err(SelectError::Parse),
        Some(v) => if v > usize::MAX {
            Err(SelectError::Parse)
        } else if v >= count {
            Err(SelectError::Bounds(ChoiceError { low: 0, high: (count - 1) as usize }))
        } else {
            Ok(v)
        },
    }
}

/// Tags the display text of an address with its family.
pub fn tagged_display(ip: &IpAddress) -> (r: IpString)
    ensures
        label_of(r) == display_of(*ip),
        r is V4 <==> *ip is V4,
{
    let s = display_string(ip);
    match ip {
        IpAddress::V4(..) => IpString::V4(s),
        IpAddress::V6(..) => IpString::V6(s),
    }
}

/// Chooses among family-tagged display strings by a typed line: the returned
/// pair keeps the chosen index, the chosen label, and its family tag.
pub fn choose_ip(choices: &Vec<IpString>, line: String) -> (r: Result<(usize, IpString), SelectError>)
    requires
        choices@.len() > 0,
    ensures
        match r {
            Ok(p) => {
                &&& choice_of(line@) == Some(p.0 as nat)
                &&& (p.0 as int) < choices@.len()
                &&& label_of(p.1) == label_of(choices@[p.0 as int])
                &&& (p.1 is V4 <==> choices@[p.0 as int] is V4)
            },
            Err(SelectError::Parse) => choice_of(line@) is None || choice_of(line@)->0
                > usize::MAX,
            Err(SelectError::Bounds(e)) => {
                &&& choice_of(line@) matches Some(v) && choices@.len() <= v <= usize::MAX
                &&& e.low == 0
                &&& e.high == choices@.len() - 1
            },
        },
{
    let mut labels: Vec<String> = Vec::new();
    let mut i: usize = 0;
    while i < choices.len()
        invariant
            0 <= i <= choices@.len(),
            labels@.len() == i,
            forall|k: int| 0 <= k < i ==> (#[trigger] labels@[k])@ == label_of(choices@[k]),
        decreases choices@.len() - i,
    {
        let s = match &choices[i] {
            IpString::V4(s) => s.clone(),
            IpString::V6(s) => s.clone(),
        };
        labels.push(s);
        i += 1;
    }
    let picked = match select_item(line, labels.as_slice()) {
        Ok(p) => p,
        Err(e) => {
            return Err(e);
        },
    };
    let (num, label) = picked;
    let tagged = match &choices[num] {
        IpString::V4(_) => IpString::V4(label),
        IpString::V6(_) => IpString::V6(label),
    };
    Ok((num, tagged))
}

/// Resolves one of an interface's assigned addresses from a typed line:
/// renders each address in order, selects by index, and hands back the
/// chosen binary address together with its position.
pub fn resolve_address(addrs: &Vec<IpAddress>, line: String) -> (r: Result<
    (usize, IpAddress),
    SelectError,
>)
    requires
        addrs@.len() > 0,
    ensures
        match spec_select(line@, addrs@.len()) {
            Ok(j) => r matches Ok(p) && p.0 == j && p.1 == addrs@[j as int],
            Err(e) => r matches Err(x) && x == e,
        },
{
    let mut labels: Vec<IpString> = Vec::new();
    let mut i: usize = 0;
    while i < addrs.len()
        invariant
            0 <= i <= addrs@.len(),
            labels@.len() == i,
            forall|k: int|
                0 <= k < i ==> label_of(#[trigger] labels@[k]) == display_of(addrs@[k]) && (
                labels@[k] is V4 <==> addrs@[k] is V4),
        decreases addrs@.len() - i,
    {
        labels.push(tagged_display(&addrs[i]));
        i += 1;
    }
    match choose_ip(&labels, line) {
        Ok(p) => Ok((p.0, addrs[p.0])),
        Err(e) => Err(e),
    }
}

} // verus!
