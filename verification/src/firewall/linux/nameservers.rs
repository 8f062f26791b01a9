//! The name servers of the local host, whose queries are redirected.

use vstd::prelude::*;

use crate::ip;
use crate::ip::{write_ipv4, IpAddr, IpView};
use crate::ip_text;
use crate::server::dns;
use crate::server::dns::parse_resolv_conf;
use crate::split;
use crate::text;
use crate::text::{chars_of, is_text};

verus! {

/// The IPv4 addresses among these, as texts, each where it comes first.
pub open spec fn v4_texts(all: Seq<IpView>) -> Seq<Seq<char>>
    decreases all.len(),
{
    if all.len() == 0 {
        seq![]
    } else {
        let before = v4_texts(all.drop_last());
        match all.last() {
            IpView::V4(a) => if before.contains(ip::dotted(a)) {
                before
            } else {
                before.push(ip::dotted(a))
            },
            IpView::V6(_) => before,
        }
    }
}

/// The name servers that a file names, none if it cannot be read.
pub open spec fn named_in(file: Option<Seq<char>>) -> Seq<IpView> {
    match file {
        Some(s) => dns::nameservers(split::lines(s)),
        None => seq![],
    }
}

fn holds(v: &Vec<String>, s: &str) -> (r: bool)
    ensures
        r == text::texts(v@).contains(s@),
{
    let n: usize = v.len();
    for i in 0..n
        invariant
            n == v@.len(),
            forall|j: int| 0 <= j < i ==> (#[trigger] v@[j])@ != s@,
    {
        let t: Vec<char> = chars_of(v[i].as_str());
        if is_text(t.as_slice(), s) {
            assert(text::texts(v@)[i as int] == s@);
            return true;
        }
    }
    assert forall|j: int| 0 <= j < text::texts(v@).len() implies text::texts(v@)[j] != s@ by {
        assert(v@[j]@ != s@);
    }
    false
}

fn add_file(file: Option<&str>, out: &mut Vec<String>, Ghost(all): Ghost<Seq<IpView>>)
    requires
        text::texts(old(out)@) == v4_texts(all),
    ensures
        text::texts(final(out)@) == v4_texts(all + named_in(dns::text_view(file))),
{
    let found: Vec<IpAddr> = match file {
        Some(s) => parse_resolv_conf(s),
        None => Vec::new(),
    };
    let ghost here = named_in(dns::text_view(file));
    assert(dns::ip_views(found@) =~= here);
    let n: usize = found.len();
    assert(all + here.take(0) =~= all);
    for i in 0..n
        invariant
            n == found@.len(),
            dns::ip_views(found@) == here,
            text::texts(out@) == v4_texts(all + here.take(i as int)),
    {
        let ghost before = text::texts(out@);
        let ghost now = all + here.take(i + 1);
        assert(now.drop_last() =~= all + here.take(i as int));
        assert(now.last() == found@[i as int]@);
        match found[i] {
            IpAddr::V4(a) => {
                let s: String = write_ipv4(a);
                if !holds(out, s.as_str()) {
                    out.push(s);
                    assert(text::texts(out@) =~= before.push(s@));
                }
            },
            IpAddr::V6(_) => {},
        }
    }
    assert(here.take(n as int) =~= here);
}

/// The name servers of the host that have IPv4 addresses: those of its two resolver
/// files, `/etc/resolv.conf` and that of the resolver daemon, in this order and each
/// once. A file is `None` if it cannot be read.
pub fn read_local_nameservers_v4(etc: Option<&str>, daemon: Option<&str>) -> (r: Vec<String>)
    ensures
        text::texts(r@) == v4_texts(
            named_in(dns::text_view(etc)) + named_in(dns::text_view(daemon)),
        ),
{
    let mut out: Vec<String> = Vec::new();
    let ghost none = Seq::<IpView>::empty();
    assert(text::texts(out@) =~= v4_texts(none));
    add_file(etc, &mut out, Ghost(none));
    let ghost first = named_in(dns::text_view(etc));
    assert(none + first =~= first);
    add_file(daemon, &mut out, Ghost(first));
    out
}

/// No name server is listed twice, and each one that a file names by an IPv4 address
/// is listed.
pub proof fn nameservers_are_listed_once(all: Seq<IpView>)
    ensures
        v4_texts(all).no_duplicates(),
        forall|i: int|
            0 <= i < all.len() ==> ((#[trigger] all[i]) matches IpView::V4(a) ==> v4_texts(
                all,
            ).contains(ip::dotted(a))),
    decreases all.len(),
{
    if all.len() > 0 {
        let rest = all.drop_last();
        nameservers_are_listed_once(rest);
        let before = v4_texts(rest);
        let now = v4_texts(all);
        assert forall|t: Seq<char>| before.contains(t) implies now.contains(t) by {
            let k = choose|k: int| 0 <= k < before.len() && before[k] == t;
            assert(now[k] == t);
        }
        assert forall|i: int| 0 <= i < all.len() implies ((#[trigger] all[i]) matches IpView::V4(
            a,
        ) ==> now.contains(ip::dotted(a))) by {
            if let IpView::V4(a) = all[i] {
                if i < rest.len() {
                    assert(rest[i] == all[i]);
                    assert(before.contains(ip::dotted(a)));
                } else if !before.contains(ip::dotted(a)) {
                    assert(now[before.len() as int] == ip::dotted(a));
                }
            }
        }
    }
}

/// Nothing is listed but the IPv4 addresses that a file names.
pub proof fn listed_nameservers_are_named(all: Seq<IpView>, k: int)
    requires
        0 <= k < v4_texts(all).len(),
    ensures
        exists|a: Seq<u8>|
            #[trigger] all.contains(IpView::V4(a)) && v4_texts(all)[k] == ip::dotted(a),
    decreases all.len(),
{
    if all.len() > 0 {
        let rest = all.drop_last();
        let before = v4_texts(rest);
        if k < before.len() {
            listed_nameservers_are_named(rest, k);
            let a = choose|a: Seq<u8>|
                #[trigger] rest.contains(IpView::V4(a)) && before[k] == ip::dotted(a);
            let i = choose|i: int| 0 <= i < rest.len() && rest[i] == IpView::V4(a);
            assert(all[i] == IpView::V4(a));
            assert(all.contains(IpView::V4(a)));
        } else {
            assert(all.contains(all[all.len() - 1]));
        }
    }
}

/// The name servers of a first list stay where they are, in front of those that a second one
/// adds.
pub proof fn first_nameservers_come_first(a: Seq<IpView>, b: Seq<IpView>)
    ensures
        v4_texts(a).len() <= v4_texts(a + b).len(),
        v4_texts(a + b).take(v4_texts(a).len() as int) == v4_texts(a),
    decreases b.len(),
{
    let n = v4_texts(a).len() as int;
    if b.len() == 0 {
        assert(a + b =~= a);
        assert(v4_texts(a).take(n) =~= v4_texts(a));
    } else {
        let rest = b.drop_last();
        first_nameservers_come_first(a, rest);
        assert((a + b).drop_last() =~= a + rest);
        assert(v4_texts(a + b).take(n) =~= v4_texts(a + rest).take(n));
    }
}

/// The addresses that a file names, one on each line, are the name servers of that file, all
/// of them and in order; a file that cannot be read has none.
pub proof fn files_name_their_servers(all: Seq<IpView>, file: Seq<char>)
    requires
        forall|i: int| 0 <= i < all.len() ==> ip_text::is_address(#[trigger] all[i]),
    ensures
        named_in(Some(split::of_lines(dns::naming_lines(all)))) == all,
        named_in(None).len() == 0,
        dns::resolver_list(Some(file)).len() > 1 ==> named_in(Some(file)) == dns::resolver_list(
            Some(file),
        ),
{
    dns::naming_lines_read_back(all);
}

} // verus!
