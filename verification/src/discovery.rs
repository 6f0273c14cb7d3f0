//! Finding receivers in the local network: what is made of the services that multicast DNS
//! resolves.
use crate::text::{chars_of, decimal, decimal_of, find_char, piece, str_eq, strip_end};
use crate::text::{law_split_at_a_character, law_strip_trailing, strip_trailing, until};
use vstd::prelude::*;

verus! {

/// The type of service under which receivers announce themselves.
pub const SERVICE_TYPE: &'static str = "_soundtransfer._udp.local.";

/// An address of the Internet protocol.
#[derive(Debug, Clone, Copy, PartialEq, Eq, Structural)]
pub enum IpAddress {
    /// The four bytes of a version 4 address, the first one first.
    V4 { a: u8, b: u8, c: u8, d: u8 },
    V6 { bits: u128 },
}

/// An address as text: one of version 4 in the dotted notation. The text of a version 6 address
/// is given.
pub open spec fn address_text(ip: IpAddress, v6_text: Seq<char>) -> Seq<char> {
    match ip {
        IpAddress::V4 { a, b, c, d } => decimal(a as nat) + "."@ + decimal(b as nat) + "."@
            + decimal(c as nat) + "."@ + decimal(d as nat),
        IpAddress::V6 { .. } => v6_text,
    }
}

/// An address as text, given what it reads if it is of version 6.
pub fn ip_text(ip: &IpAddress, v6_text: &str) -> (text: String)
    ensures
        text@ == address_text(*ip, v6_text@),
{
    match ip {
        IpAddress::V4 { a, b, c, d } => {
            let mut text = decimal_of(*a as u64);
            text.append(".");
            text.append(decimal_of(*b as u64).as_str());
            text.append(".");
            text.append(decimal_of(*c as u64).as_str());
            text.append(".");
            text.append(decimal_of(*d as u64).as_str());
            text
        },
        IpAddress::V6 { .. } => v6_text.to_owned(),
    }
}

/// How good an address is for reaching a receiver: one of the network before one of this machine
/// itself, and version 4 before version 6.
pub open spec fn merit(ip: IpAddress) -> nat {
    match ip {
        IpAddress::V4 { a, .. } => if a != 127 {
            3
        } else {
            2
        },
        IpAddress::V6 { .. } => 1,
    }
}

pub fn score(ip: &IpAddress) -> (score: u8)
    ensures
        score == merit(*ip),
{
    match ip {
        IpAddress::V4 { a, .. } => {
            if *a != 127 {
                3
            } else {
                2
            }
        },
        IpAddress::V6 { .. } => 1,
    }
}

/// The best of some addresses; of equally good ones the last.
pub open spec fn best_of(addresses: Seq<IpAddress>) -> Option<IpAddress>
    decreases addresses.len(),
{
    if addresses.len() == 0 {
        None
    } else {
        match best_of(addresses.drop_last()) {
            Some(best) if merit(best) > merit(addresses.last()) => Some(best),
            _ => Some(addresses.last()),
        }
    }
}

/// The best of some addresses; of equally good ones the last.
pub fn best_address(addresses: &Vec<IpAddress>) -> (best: Option<IpAddress>)
    ensures
        best == best_of(addresses@),
{
    let mut best: Option<IpAddress> = None;
    let mut i: usize = 0;
    while i < addresses.len()
        invariant
            i <= addresses@.len(),
            best == best_of(addresses@.take(i as int)),
        decreases addresses.len() - i,
    {
        let next: IpAddress = addresses[i];
        proof {
            assert(addresses@.take(i + 1).drop_last() =~= addresses@.take(i as int));
        }
        best = match best {
            Some(ip) => {
                if score(&ip) > score(&next) {
                    Some(ip)
                } else {
                    Some(next)
                }
            },
            None => Some(next),
        };
        i = i + 1;
    }
    assert(addresses@.take(i as int) =~= addresses@);
    best
}

/// The best address is one of those given, none of them is better, and all behind it are worse.
pub proof fn law_best_address(addresses: Seq<IpAddress>)
    ensures
        best_of(addresses) is None <==> addresses.len() == 0,
        best_of(addresses) matches Some(best) ==> exists|i: int|
            {
                &&& 0 <= i < addresses.len()
                &&& #[trigger] addresses[i] == best
                &&& forall|k: int| 0 <= k < addresses.len() ==> merit(#[trigger] addresses[k])
                    <= merit(best)
                &&& forall|k: int| i < k < addresses.len() ==> merit(#[trigger] addresses[k])
                    < merit(best)
            },
    decreases addresses.len(),
{
    if addresses.len() > 0 {
        let front = addresses.drop_last();
        law_best_address(front);
        let best = best_of(addresses)->0;
        if best_of(front) is Some && merit(best_of(front)->0) > merit(addresses.last()) {
            let i = choose|i: int|
                {
                    &&& 0 <= i < front.len()
                    &&& #[trigger] front[i] == best
                    &&& forall|k: int| 0 <= k < front.len() ==> merit(#[trigger] front[k]) <= merit(
                        best,
                    )
                    &&& forall|k: int| i < k < front.len() ==> merit(#[trigger] front[k]) < merit(
                        best,
                    )
                };
            assert(addresses[i] == front[i]);
            assert forall|k: int| 0 <= k < addresses.len() implies merit(#[trigger] addresses[k])
                <= merit(best) && (i < k ==> merit(addresses[k]) < merit(best)) by {
                if k < front.len() {
                    assert(front[k] == addresses[k]);
                }
            }
        } else {
            let i = addresses.len() - 1;
            assert(addresses[i] == best);
            assert forall|k: int| 0 <= k < addresses.len() implies merit(#[trigger] addresses[k])
                <= merit(best) by {
                if k < front.len() {
                    assert(front[k] == addresses[k]);
                }
            }
        }
    }
}

/// A receiver that was found.
#[derive(Debug, Clone)]
pub struct Found {
    pub name: String,
    pub ip: IpAddress,
    pub port: u16,
}

/// A receiver as it is listed: its name, its address and its port.
pub open spec fn found_label(found: Found, v6_text: Seq<char>) -> Seq<char> {
    found.name@ + " — "@ + address_text(found.ip, v6_text) + ":"@ + decimal(found.port as nat)
}

impl Found {
    /// The receiver as it is listed, given what its address reads if it is of version 6.
    pub fn label(&self, v6_text: &str) -> (label: String)
        ensures
            label@ == found_label(*self, v6_text@),
    {
        let mut label = self.name.clone();
        label.append(" — ");
        label.append(ip_text(&self.ip, v6_text).as_str());
        label.append(":");
        label.append(decimal_of(self.port as u64).as_str());
        label
    }
}

/// A service that was resolved: its full name, its port, and the best address known of it.
pub struct Service {
    pub fullname: Seq<char>,
    pub port: u16,
    pub ip: IpAddress,
}

/// Whether a service stands at position `at` of a list.
pub open spec fn listed_at(services: Seq<Service>, fullname: Seq<char>, port: u16, at: int) -> bool {
    0 <= at < services.len() && services[at].fullname == fullname && services[at].port == port
}

/// Whether a service is in a list.
pub open spec fn listed(services: Seq<Service>, fullname: Seq<char>, port: u16) -> bool {
    exists|at: int| listed_at(services, fullname, port, at)
}

/// Whether every service is in a list once only.
pub open spec fn no_repeats(services: Seq<Service>) -> bool {
    forall|i: int, j: int|
        0 <= i < j < services.len() ==> (#[trigger] services[i]).fullname != (
        #[trigger] services[j]).fullname || services[i].port != services[j].port
}

/// The list after a service was resolved to some addresses: a new one goes to its end, and one
/// that is known only gets a better address. One without addresses is passed over.
pub open spec fn with_service(
    services: Seq<Service>,
    fullname: Seq<char>,
    addresses: Seq<IpAddress>,
    port: u16,
) -> Seq<Service> {
    match best_of(addresses) {
        None => services,
        Some(ip) => if listed(services, fullname, port) {
            services.map_values(
                |service: Service|
                    if service.fullname == fullname && service.port == port && merit(ip) > merit(
                        service.ip,
                    ) {
                        Service { ip, ..service }
                    } else {
                        service
                    },
            )
        } else {
            services.push(Service { fullname, port, ip })
        },
    }
}

/// The receivers found so far.
#[derive(Debug)]
pub struct Finder {
    fullnames: Vec<String>,
    found: Vec<Found>,
}

impl View for Finder {
    type V = Seq<Service>;

    closed spec fn view(&self) -> Seq<Service> {
        Seq::new(
            self.found@.len(),
            |i: int|
                Service {
                    fullname: self.fullnames@[i]@,
                    port: self.found@[i].port,
                    ip: self.found@[i].ip,
                },
        )
    }
}

/// Whether a list of receivers is what a list of services comes to: each goes by the first label
/// of the service's full name.
pub open spec fn found_of(found: Seq<Found>, services: Seq<Service>) -> bool {
    &&& found.len() == services.len()
    &&& forall|i: int|
        0 <= i < found.len() ==> (#[trigger] found[i]).name@ == until(services[i].fullname, '.')
            && found[i].ip == services[i].ip && found[i].port == services[i].port
}

impl Finder {
    pub closed spec fn wf(&self) -> bool {
        &&& self.fullnames@.len() == self.found@.len()
        &&& no_repeats(self@)
        &&& found_of(self.found@, self@)
    }

    pub fn new() -> (finder: Finder)
        ensures
            finder.wf(),
            finder@ == Seq::<Service>::empty(),
    {
        let finder = Finder { fullnames: Vec::new(), found: Vec::new() };
        assert(finder@ =~= Seq::empty());
        finder
    }

    /// Where a service stands in the list.
    fn position(&self, fullname: &str, port: u16) -> (at: Option<usize>)
        requires
            self.wf(),
        ensures
            match at {
                Some(i) => listed_at(self@, fullname@, port, i as int),
                None => !listed(self@, fullname@, port),
            },
    {
        let mut i: usize = 0;
        while i < self.found.len()
            invariant
                self.wf(),
                i <= self.found@.len(),
                forall|k: int| 0 <= k < i ==> !listed_at(self@, fullname@, port, k),
            decreases self.found.len() - i,
        {
            if self.found[i].port == port && str_eq(self.fullnames[i].as_str(), fullname) {
                return Some(i);
            }
            i = i + 1;
        }
        None
    }

    /// Takes in that a service was resolved.
    pub fn on_resolved(&mut self, fullname: &str, addresses: &Vec<IpAddress>, port: u16)
        requires
            old(self).wf(),
        ensures
            final(self).wf(),
            final(self)@ == with_service(old(self)@, fullname@, addresses@, port),
    {
        let ghost before = self@;
        let ip = match best_address(addresses) {
            Some(ip) => ip,
            None => {
                return;
            },
        };
        match self.position(fullname, port) {
            Some(i) => {
                let known: IpAddress = self.found[i].ip;
                if score(&ip) > score(&known) {
                    let name = self.found[i].name.clone();
                    self.found.set(i, Found { name, ip, port });
                }
                assert(self@ =~= with_service(before, fullname@, addresses@, port));
            },
            None => {
                let name = first_label(fullname);
                self.fullnames.push(fullname.to_owned());
                self.found.push(Found { name, ip, port });
                assert(self@ =~= before.push(Service { fullname: fullname@, port, ip }));
                proof {
                    assert forall|i: int, j: int| 0 <= i < j < self@.len() implies (
                    #[trigger] self@[i]).fullname != (#[trigger] self@[j]).fullname || self@[i].port
                        != self@[j].port by {
                        if j == before.len() {
                            assert(!listed_at(before, fullname@, port, i));
                        }
                    }
                }
            },
        }
    }

    /// The receivers found.
    pub fn into_found(self) -> (found: Vec<Found>)
        requires
            self.wf(),
        ensures
            found_of(found@, self@),
    {
        self.found
    }
}

/// The first label of a name: what stands before its first dot.
pub fn first_label(fullname: &str) -> (label: String)
    ensures
        label@ == until(fullname@, '.'),
{
    let chars = chars_of(fullname);
    let end: usize = find_char(&chars, 0, '.');
    assert(chars@.skip(0) =~= chars@);
    piece(fullname, 0, end)
}

/// The label under which a machine announces itself: its name without the local domain, and a
/// name of our own where nothing is left of it.
pub open spec fn label_of(hostname: Seq<char>) -> Seq<char> {
    let label = strip_trailing(strip_trailing(hostname, ".local"@), "."@);
    if label.len() == 0 {
        "soundtransfer"@
    } else {
        label
    }
}

/// The label under which the machine with the given name announces itself.
pub fn host_label(hostname: &str) -> (label: String)
    ensures
        label@ == label_of(hostname@),
{
    let chars = chars_of(hostname);
    let domain = chars_of(".local");
    let dot = chars_of(".");
    proof {
        reveal_strlit(".local");
        reveal_strlit(".");
        assert(chars@.take(chars@.len() as int) =~= chars@);
    }
    let end: usize = strip_end(&chars, chars.len(), &domain);
    let end: usize = strip_end(&chars, end, &dot);
    if end == 0 {
        "soundtransfer".to_owned()
    } else {
        piece(hostname, 0, end)
    }
}

/// The host name that goes with a label.
pub fn host_name(label: &str) -> (name: String)
    ensures
        name@ == label@ + ".local."@,
{
    label.to_owned().concat(".local.")
}

/// A service stays in its place once it is listed, and its address only ever gets better.
pub proof fn law_addresses_only_improve(
    services: Seq<Service>,
    fullname: Seq<char>,
    addresses: Seq<IpAddress>,
    port: u16,
    i: int,
)
    requires
        0 <= i < services.len(),
    ensures
        ({
            let later = with_service(services, fullname, addresses, port);
            &&& later.len() >= services.len()
            &&& later[i].fullname == services[i].fullname
            &&& later[i].port == services[i].port
            &&& merit(later[i].ip) >= merit(services[i].ip)
        }),
{
}

/// However often a service is resolved, it is listed once.
pub proof fn law_services_are_listed_once(
    services: Seq<Service>,
    fullname: Seq<char>,
    addresses: Seq<IpAddress>,
    port: u16,
)
    requires
        no_repeats(services),
    ensures
        no_repeats(with_service(services, fullname, addresses, port)),
        addresses.len() > 0 ==> listed(
            with_service(services, fullname, addresses, port),
            fullname,
            port,
        ),
{
    let later = with_service(services, fullname, addresses, port);
    law_best_address(addresses);
    if best_of(addresses) is Some {
        if listed(services, fullname, port) {
            let at = choose|at: int| listed_at(services, fullname, port, at);
            assert(listed_at(later, fullname, port, at));
        } else {
            assert(listed_at(later, fullname, port, services.len() as int));
            assert forall|i: int, j: int| 0 <= i < j < later.len() implies (
            #[trigger] later[i]).fullname != (#[trigger] later[j]).fullname || later[i].port
                != later[j].port by {
                if j == services.len() {
                    assert(!listed_at(services, fullname, port, i));
                }
            }
        }
    }
}

/// Resolving a service again to the same addresses changes nothing.
pub proof fn law_resolving_again_changes_nothing(
    services: Seq<Service>,
    fullname: Seq<char>,
    addresses: Seq<IpAddress>,
    port: u16,
)
    ensures
        with_service(
            with_service(services, fullname, addresses, port),
            fullname,
            addresses,
            port,
        ) == with_service(services, fullname, addresses, port),
{
    let once = with_service(services, fullname, addresses, port);
    if best_of(addresses) is Some {
        if listed(services, fullname, port) {
            let at = choose|at: int| listed_at(services, fullname, port, at);
            assert(listed_at(once, fullname, port, at));
        } else {
            assert(listed_at(once, fullname, port, services.len() as int));
            assert forall|i: int| 0 <= i < services.len() implies !((#[trigger] once[i]).fullname
                == fullname && once[i].port == port) by {
                assert(!listed_at(services, fullname, port, i));
            }
        }
        assert(with_service(once, fullname, addresses, port) =~= once);
    }
}

/// Which addresses are preferred: those of the network to those of this machine itself, which begin
/// with 127, and both to those of version 6. Nothing else makes a difference.
pub proof fn law_preferred_addresses(a: u8, b: u8, c: u8, d: u8, other: IpAddress)
    ensures
        ({
            let ip = IpAddress::V4 { a, b, c, d };
            &&& other is V6 ==> merit(ip) > merit(other)
            &&& other matches IpAddress::V4 { a: first, .. } ==> {
                &&& a != 127 && first == 127 ==> merit(ip) > merit(other)
                &&& (a == 127 <==> first == 127) ==> merit(ip) == merit(other)
            }
        }),
        forall|x: u128, y: u128| #[trigger]
            merit(IpAddress::V6 { bits: x }) == #[trigger] merit(IpAddress::V6 { bits: y }),
{
}

/// What a resolution makes of a service that is listed: its address is then as good as every one
/// that it was resolved to. It is the one it had if that was as good already, and one of the new
/// ones if not.
pub proof fn law_listed_address_is_the_best(
    services: Seq<Service>,
    fullname: Seq<char>,
    addresses: Seq<IpAddress>,
    port: u16,
    at: int,
)
    requires
        0 <= at < services.len(),
        services[at].fullname == fullname,
        services[at].port == port,
    ensures
        ({
            let later = with_service(services, fullname, addresses, port);
            let (old_ip, ip) = (services[at].ip, later[at].ip);
            &&& later.len() == services.len()
            &&& later[at].fullname == fullname
            &&& later[at].port == port
            &&& forall|k: int| 0 <= k < addresses.len() ==> merit(ip) >= merit(#[trigger] addresses[k])
            &&& merit(ip) >= merit(old_ip)
            &&& ip == old_ip || addresses.contains(ip)
            &&& (forall|k: int|
                0 <= k < addresses.len() ==> merit(old_ip) >= merit(#[trigger] addresses[k])) ==> ip
                == old_ip
        }),
{
    law_best_address(addresses);
    assert(listed_at(services, fullname, port, at));
}

/// What a resolution makes of a service that is not listed yet: it goes to the end of the list with
/// the best of its addresses, unless it has none.
pub proof fn law_new_service_goes_to_the_end(
    services: Seq<Service>,
    fullname: Seq<char>,
    addresses: Seq<IpAddress>,
    port: u16,
)
    requires
        forall|i: int|
            0 <= i < services.len() ==> (#[trigger] services[i]).fullname != fullname
                || services[i].port != port,
    ensures
        ({
            let later = with_service(services, fullname, addresses, port);
            &&& addresses.len() == 0 ==> later == services
            &&& addresses.len() > 0 ==> {
                &&& later.len() == services.len() + 1
                &&& later.drop_last() == services
                &&& later.last().fullname == fullname
                &&& later.last().port == port
                &&& addresses.contains(later.last().ip)
                &&& forall|k: int|
                    0 <= k < addresses.len() ==> merit(later.last().ip) >= merit(
                        #[trigger] addresses[k],
                    )
            }
        }),
{
    law_best_address(addresses);
    assert(!listed(services, fullname, port));
    if best_of(addresses) is Some {
        let later = with_service(services, fullname, addresses, port);
        assert(later.drop_last() =~= services);
    }
}

/// A resolution leaves every other service as it is, in its place.
pub proof fn law_other_services_stay(
    services: Seq<Service>,
    fullname: Seq<char>,
    addresses: Seq<IpAddress>,
    port: u16,
    i: int,
)
    requires
        0 <= i < services.len(),
        services[i].fullname != fullname || services[i].port != port,
    ensures
        with_service(services, fullname, addresses, port)[i] == services[i],
{
}

/// That a service was resolved.
pub struct Resolution {
    pub fullname: Seq<char>,
    pub port: u16,
    pub addresses: Seq<IpAddress>,
}

/// The list after a run of resolutions.
pub open spec fn services_after(run: Seq<Resolution>) -> Seq<Service>
    decreases run.len(),
{
    if run.len() == 0 {
        Seq::empty()
    } else {
        with_service(
            services_after(run.drop_last()),
            run.last().fullname,
            run.last().addresses,
            run.last().port,
        )
    }
}

/// Over a run of resolutions every service that was resolved to an address is listed, once, and its
/// listed address is as good as any that was seen of it.
pub proof fn law_best_of_all_that_were_seen(run: Seq<Resolution>, j: int, k: int)
    requires
        0 <= j < run.len(),
        0 <= k < run[j].addresses.len(),
    ensures
        no_repeats(services_after(run)),
        exists|at: int| #[trigger]
            listed_at(services_after(run), run[j].fullname, run[j].port, at) && merit(
                services_after(run)[at].ip,
            ) >= merit(run[j].addresses[k]),
    decreases run.len(),
{
    let front = run.drop_last();
    let before = services_after(front);
    let last = run.last();
    let later = services_after(run);
    lemma_no_repeats_after(run);
    if j == run.len() - 1 {
        if listed(before, last.fullname, last.port) {
            let at = choose|at: int| listed_at(before, last.fullname, last.port, at);
            law_listed_address_is_the_best(before, last.fullname, last.addresses, last.port, at);
            assert(listed_at(later, last.fullname, last.port, at));
        } else {
            assert forall|i: int| 0 <= i < before.len() implies (#[trigger] before[i]).fullname
                != last.fullname || before[i].port != last.port by {
                assert(!listed_at(before, last.fullname, last.port, i));
            }
            law_new_service_goes_to_the_end(before, last.fullname, last.addresses, last.port);
            assert(listed_at(later, last.fullname, last.port, later.len() - 1));
        }
    } else {
        assert(front[j] == run[j]);
        law_best_of_all_that_were_seen(front, j, k);
        let at = choose|at: int| #[trigger]
            listed_at(before, run[j].fullname, run[j].port, at) && merit(before[at].ip) >= merit(
                run[j].addresses[k],
            );
        law_addresses_only_improve(before, last.fullname, last.addresses, last.port, at);
        assert(listed_at(later, run[j].fullname, run[j].port, at));
    }
}

proof fn lemma_no_repeats_after(run: Seq<Resolution>)
    ensures
        no_repeats(services_after(run)),
    decreases run.len(),
{
    if run.len() > 0 {
        lemma_no_repeats_after(run.drop_last());
        law_services_are_listed_once(
            services_after(run.drop_last()),
            run.last().fullname,
            run.last().addresses,
            run.last().port,
        );
    }
}

/// Nothing is made up: every service that is listed after a run was resolved, to the address that is
/// listed.
pub proof fn law_listed_addresses_were_seen(run: Seq<Resolution>, at: int)
    requires
        0 <= at < services_after(run).len(),
    ensures
        exists|j: int|
            {
                &&& 0 <= j < run.len()
                &&& (#[trigger] run[j]).fullname == services_after(run)[at].fullname
                &&& run[j].port == services_after(run)[at].port
                &&& run[j].addresses.contains(services_after(run)[at].ip)
            },
    decreases run.len(),
{
    let front = run.drop_last();
    let before = services_after(front);
    let last = run.last();
    let later = services_after(run);
    law_best_address(last.addresses);
    if at < before.len() {
        law_listed_addresses_were_seen(front, at);
        let j = choose|j: int|
            {
                &&& 0 <= j < front.len()
                &&& (#[trigger] front[j]).fullname == before[at].fullname
                &&& front[j].port == before[at].port
                &&& front[j].addresses.contains(before[at].ip)
            };
        assert(run[j] == front[j]);
        if before[at].fullname == last.fullname && before[at].port == last.port {
            law_listed_address_is_the_best(before, last.fullname, last.addresses, last.port, at);
            if later[at].ip != before[at].ip {
                assert(run[run.len() - 1] == last);
            }
        } else {
            law_other_services_stay(before, last.fullname, last.addresses, last.port, at);
        }
    } else {
        assert(run[run.len() - 1] == last);
    }
}

/// The label of a machine: the local domain at the end of its name goes, as often as it stands
/// there, and the dots before it; a name with neither at its end is its own label.
pub proof fn law_host_labels(hostname: Seq<char>)
    ensures
        label_of(hostname + ".local"@) == label_of(hostname),
        !".local"@.is_suffix_of(hostname) ==> label_of(hostname + "."@) == label_of(hostname),
        hostname.len() > 0 && hostname.last() != '.' && !".local"@.is_suffix_of(hostname)
            ==> label_of(hostname) == hostname,
        label_of(Seq::<char>::empty()) == "soundtransfer"@,
{
    reveal_strlit(".local");
    reveal_strlit(".");
    let (domain, dot) = (".local"@, "."@);
    law_strip_trailing(hostname, domain);
    if !domain.is_suffix_of(hostname) {
        let dotted = hostname + dot;
        assert(dotted.last() == '.');
        if domain.is_suffix_of(dotted) {
            assert(dotted.subrange(dotted.len() - domain.len(), dotted.len() as int).last()
                == domain.last());
        }
        law_strip_trailing(dotted, domain);
        law_strip_trailing(hostname, dot);
        if hostname.len() > 0 && hostname.last() != '.' {
            if dot.is_suffix_of(hostname) {
                assert(hostname.subrange(hostname.len() - 1, hostname.len() as int)[0] == dot[0]);
            }
        }
    }
    let nothing = Seq::<char>::empty();
    law_strip_trailing(nothing, domain);
    law_strip_trailing(nothing, dot);
}

/// An address of version 4 is written as its four numbers with dots between them, and a receiver as
/// its name, its address and its port.
pub proof fn law_addresses_are_dotted(a: u8, b: u8, c: u8, d: u8, found: Found, v6_text: Seq<char>)
    ensures
        address_text(IpAddress::V4 { a, b, c, d }, v6_text) == decimal(a as nat) + "."@ + decimal(
            b as nat,
        ) + "."@ + decimal(c as nat) + "."@ + decimal(d as nat),
        found_label(found, v6_text) == found.name@ + " — "@ + address_text(found.ip, v6_text)
            + ":"@ + decimal(found.port as nat),
        found.ip is V6 ==> address_text(found.ip, v6_text) == v6_text,
{
}

/// The receivers that come out of a search are the services that were listed, in their order, each
/// under the first label of its full name, with its address and its port.
pub proof fn law_found_are_the_services(
    found: Seq<Found>,
    services: Seq<Service>,
    label: Seq<char>,
    rest: Seq<char>,
    i: int,
)
    requires
        found_of(found, services),
    ensures
        found.len() == services.len(),
        0 <= i < found.len() ==> {
            &&& found[i].ip == services[i].ip
            &&& found[i].port == services[i].port
            &&& !label.contains('.') && services[i].fullname == label + seq!['.'] + rest
                ==> found[i].name@ == label
            &&& !services[i].fullname.contains('.') ==> found[i].name@ == services[i].fullname
        },
{
    if !label.contains('.') {
        law_split_at_a_character(label, '.', rest);
    }
    if 0 <= i < services.len() && !services[i].fullname.contains('.') {
        law_split_at_a_character(services[i].fullname, '.', rest);
    }
}

} // verus!
