//! Putting a snapshot together from what was read.

use vstd::prelude::*;
use crate::caps::Capabilities;
use crate::model::{
    Battery, BlockDevice, DisplayConnector, Host, KernelLog, PowerDelivery, Snapshot,
    ThunderboltTopology, TypecPort, UsbDevice,
};
use crate::double::{parse_double, Double};
use crate::seqs::{gathered, kept, lemma_take_all, lemma_take_more};
use crate::text::{
    contains, has_text, holds_text, in_order, lines, lines_of, no_texts, push_text, put_text,
    split_whitespace, texts, words,
};

verus! {

/// What a capture read, before anything was made of it.
#[derive(Debug, Clone)]
pub struct Readings {
    pub captured_at_unix_ms: u64,
    pub kernel_release: Option<String>,
    pub product_name: Option<String>,
    pub sys_vendor: Option<String>,
    /// `/proc/modules`.
    pub modules: Option<String>,
    /// `/proc/uptime`.
    pub uptime: Option<String>,
    pub capabilities: Capabilities,
    pub buses: Vec<UsbDevice>,
    pub ports: Vec<TypecPort>,
    pub thunderbolt: ThunderboltTopology,
    pub block_devices: Vec<BlockDevice>,
    pub batteries: Vec<Battery>,
    pub displays: Vec<DisplayConnector>,
    pub mains_online: Option<bool>,
    /// Every PD object, by its name.
    pub pd: Vec<(String, PowerDelivery)>,
    /// The kernel log, as it was collected.
    pub kernel_log: KernelLog,
}

/// Seconds since boot: the first number of `/proc/uptime`.
pub open spec fn uptime(text: Option<String>) -> Option<Double> {
    match text {
        Some(t) => if words(t@).len() > 0 {
            Double::parsed(words(t@)[0])
        } else {
            None
        },
        None => None,
    }
}

pub fn read_uptime_s(text: &Option<String>) -> (r: Option<Double>)
    ensures
        r == uptime(*text),
{
    let t = match text {
        Some(t) => t,
        None => {
            return None;
        },
    };
    let ws = split_whitespace(t.as_str());
    assert(texts(ws@).len() == ws@.len());
    if ws.len() == 0 {
        return None;
    }
    assert(texts(ws@)[0] == ws@[0]@);
    parse_double(ws[0].as_str())
}

/// A module that implements Type-C support, by its name.
pub open spec fn is_typec_driver(m: Seq<char>) -> bool {
    holds_text(m, "typec"@) || holds_text(m, "ucsi"@) || holds_text(m, "tcpm"@) || holds_text(
        m,
        "tcpci"@,
    ) || holds_text(m, "fusb302"@) || holds_text(m, "pd_"@)
}

fn typec_driver(m: &str) -> (r: bool)
    ensures
        r == is_typec_driver(m@),
{
    contains(m, "typec") || contains(m, "ucsi") || contains(m, "tcpm") || contains(m, "tcpci")
        || contains(m, "fusb302") || contains(m, "pd_")
}

pub open spec fn driver_on() -> spec_fn(Seq<char>) -> Seq<Seq<char>> {
    |l: Seq<char>|
        if words(l).len() > 0 && is_typec_driver(words(l)[0]) {
            seq![words(l)[0]]
        } else {
            Seq::empty()
        }
}

/// The Type-C drivers among the loaded modules, each once and in order. Which
/// one is in use decides how much the kernel can expose.
pub open spec fn typec_drivers(modules: Option<String>) -> Seq<Seq<char>> {
    match modules {
        Some(m) => in_order(gathered(lines_of(m@), driver_on())),
        None => Seq::empty(),
    }
}

pub fn read_typec_drivers(modules: &Option<String>) -> (r: Vec<String>)
    ensures
        texts(r@) == typec_drivers(*modules),
{
    let mut out = no_texts();
    let text = match modules {
        Some(m) => m,
        None => {
            return out;
        },
    };
    let ls = lines(text.as_str());
    let ghost all = texts(ls@);
    let ghost f = driver_on();
    let mut i: usize = 0;
    while i < ls.len()
        invariant
            i <= ls.len(),
            all == texts(ls@),
            f == driver_on(),
            texts(out@) == in_order(gathered(all.take(i as int), f)),
        decreases ls.len() - i,
    {
        let ghost sofar = gathered(all.take(i as int), f);
        proof {
            lemma_take_more(all, i as int);
        }
        let ws = split_whitespace(ls[i].as_str());
        assert(texts(ws@).len() == ws@.len());
        let mut named = false;
        if ws.len() > 0 {
            assert(texts(ws@)[0] == ws@[0]@);
            named = typec_driver(ws[0].as_str());
        }
        if named {
            proof {
                let more = sofar + f(all[i as int]);
                assert(more.drop_last() =~= sofar);
                assert(more.last() == ws@[0]@);
            }
            put_text(&mut out, ws[0].clone());
        } else {
            assert(sofar + f(all[i as int]) =~= sofar);
        }
        i += 1;
    }
    proof {
        lemma_take_all(all);
    }
    out
}

/// The PD objects a port refers to, by name.
pub open spec fn names_on() -> spec_fn(TypecPort) -> Seq<Seq<char>> {
    |p: TypecPort| own_name(p) + partner_name(p)
}

pub open spec fn own_name(p: TypecPort) -> Seq<Seq<char>> {
    match p.local_pd {
        Some(pd) => seq![pd.name@],
        None => Seq::empty(),
    }
}

pub open spec fn partner_name(p: TypecPort) -> Seq<Seq<char>> {
    match p.partner {
        Some(x) => match x.pd {
            Some(pd) => seq![pd.name@],
            None => Seq::empty(),
        },
        None => Seq::empty(),
    }
}

pub open spec fn referenced(ports: Seq<TypecPort>) -> Seq<Seq<char>> {
    gathered(ports, names_on())
}

fn list_referenced(ports: &Vec<TypecPort>) -> (r: Vec<String>)
    ensures
        texts(r@) == referenced(ports@),
{
    let ghost f = names_on();
    let mut out = no_texts();
    let mut i: usize = 0;
    while i < ports.len()
        invariant
            i <= ports.len(),
            f == names_on(),
            texts(out@) == gathered(ports@.take(i as int), f),
        decreases ports.len() - i,
    {
        let ghost before = texts(out@);
        proof {
            lemma_take_more(ports@, i as int);
        }
        if let Some(pd) = &ports[i].local_pd {
            push_text(&mut out, pd.name.clone());
        }
        assert(texts(out@) =~= before + own_name(ports@[i as int]));
        if let Some(p) = &ports[i].partner {
            if let Some(pd) = &p.pd {
                push_text(&mut out, pd.name.clone());
            }
        }
        assert(texts(out@) =~= before + f(ports@[i as int]));
        i += 1;
    }
    proof {
        lemma_take_all(ports@);
    }
    out
}

pub open spec fn unreferenced(names: Seq<Seq<char>>) -> spec_fn((String, PowerDelivery)) -> bool {
    |x: (String, PowerDelivery)| !names.contains(x.0@)
}

pub open spec fn objects(s: Seq<(String, PowerDelivery)>) -> Seq<PowerDelivery> {
    Seq::new(s.len(), |i: int| s[i].1)
}

/// Every PD object that no port refers to, so that nothing is lost.
pub fn orphans(ports: &Vec<TypecPort>, all: Vec<(String, PowerDelivery)>) -> (r: Vec<PowerDelivery>)
    ensures
        r@ == objects(kept(all@, unreferenced(referenced(ports@)))),
{
    let names = list_referenced(ports);
    let ghost every = all@;
    let ghost p = unreferenced(referenced(ports@));
    let mut rest = all;
    let n: usize = rest.len();
    let mut out: Vec<PowerDelivery> = Vec::new();
    let mut i: usize = 0;
    assert(rest@ =~= every.skip(0));
    assert(out@ =~= objects(kept(every.take(0), p)));
    while i < n
        invariant
            i <= n,
            every.len() == n,
            texts(names@) == referenced(ports@),
            p == unreferenced(referenced(ports@)),
            rest@ == every.skip(i as int),
            out@ == objects(kept(every.take(i as int), p)),
        decreases n - i,
    {
        let ghost before = kept(every.take(i as int), p);
        let x = rest.remove(0);
        proof {
            assert(rest@ =~= every.skip(i + 1));
            lemma_take_more(every, i as int);
        }
        if !has_text(&names, x.0.as_str()) {
            assert(objects(before.push(x)) =~= objects(before).push(x.1));
            out.push(x.1);
        }
        i += 1;
    }
    proof {
        lemma_take_all(every);
    }
    out
}

/// A snapshot of what was read. A kernel log that the caller hands in is used as
/// it is, in place of the one that was collected.
pub fn capture_with_log(readings: Readings, log: Option<KernelLog>) -> (r: Snapshot)
    ensures
        r.captured_at_unix_ms == readings.captured_at_unix_ms,
        r.host.kernel_release == readings.kernel_release,
        r.host.product_name == readings.product_name,
        r.host.sys_vendor == readings.sys_vendor,
        texts(r.host.typec_drivers@) == typec_drivers(readings.modules),
        r.capabilities == readings.capabilities,
        r.buses == readings.buses,
        r.ports == readings.ports,
        r.thunderbolt == readings.thunderbolt,
        r.block_devices == readings.block_devices,
        r.batteries == readings.batteries,
        r.displays == readings.displays,
        r.mains_online == readings.mains_online,
        r.uptime_s == uptime(readings.uptime),
        r.orphan_pd@ == objects(kept(readings.pd@, unreferenced(referenced(readings.ports@)))),
        r.urb_traffic is None,
        r.throughput@.len() == 0,
        r.reenumeration is None,
        r.kernel_log == (match log {
            Some(l) => l,
            None => readings.kernel_log,
        }),
{
    let typec_drivers = read_typec_drivers(&readings.modules);
    let uptime_s = read_uptime_s(&readings.uptime);
    let orphan_pd = orphans(&readings.ports, readings.pd);
    let kernel_log = match log {
        Some(l) => l,
        None => readings.kernel_log,
    };
    Snapshot {
        captured_at_unix_ms: readings.captured_at_unix_ms,
        host: Host {
            kernel_release: readings.kernel_release,
            product_name: readings.product_name,
            sys_vendor: readings.sys_vendor,
            typec_drivers,
        },
        capabilities: readings.capabilities,
        buses: readings.buses,
        ports: readings.ports,
        thunderbolt: readings.thunderbolt,
        block_devices: readings.block_devices,
        batteries: readings.batteries,
        displays: readings.displays,
        mains_online: readings.mains_online,
        uptime_s,
        orphan_pd,
        urb_traffic: None,
        throughput: Vec::new(),
        reenumeration: None,
        kernel_log,
    }
}

/// No PD object is lost: it is referred to by a port, or kept as an orphan.
pub proof fn no_object_is_lost(ports: Seq<TypecPort>, all: Seq<(String, PowerDelivery)>, i: int)
    requires
        0 <= i < all.len(),
    ensures
        referenced(ports).contains(all[i].0@) || kept(all, unreferenced(referenced(ports))).contains(
            all[i],
        ),
{
    crate::seqs::lemma_kept(all, unreferenced(referenced(ports)));
    assert(all.contains(all[i]));
}

} // verus!
