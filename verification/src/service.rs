//! The addresses of the task service.

use vstd::prelude::*;
use vstd::string::*;
use crate::text::{decimal, push_decimal};

verus! {

/// The base address of the service on a host.
pub open spec fn base_of(host: Seq<char>) -> Seq<char> {
    "http://"@ + host + "/qbackend/"@
}

/// The address that hands out the next task for a system.
pub open spec fn task_address(base: Seq<char>, system_id: usize) -> Seq<char> {
    base + "scq_task/?system_id="@ + decimal(system_id as nat)
}

/// The address that takes results.
pub open spec fn result_address(base: Seq<char>) -> Seq<char> {
    base + "scq_result/"@
}

/// The base address of the service on a host.
pub fn base_address(host: &str) -> (url: String)
    ensures
        url@ == base_of(host@),
{
    let mut url = String::from_str("http://");
    url.append(host);
    url.append("/qbackend/");
    url
}

/// The address that hands out the next task for a system.
pub fn task_url(base: &str, system_id: usize) -> (url: String)
    ensures
        url@ == task_address(base@, system_id),
{
    let mut url = String::from_str(base);
    url.append("scq_task/?system_id=");
    push_decimal(&mut url, system_id);
    url
}

/// The address that takes results.
pub fn result_url(base: &str) -> (url: String)
    ensures
        url@ == result_address(base@),
{
    let mut url = String::from_str(base);
    url.append("scq_result/");
    url
}

} // verus!
