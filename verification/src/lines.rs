//! How lines are read: log lines, mount tables, uevents and paths.

use vstd::prelude::*;
use crate::block::{below_header, mount_line, swap_line, unescaped, Stack, Use};
use crate::double::Double;
use crate::escalate::{beside, places};
use crate::kernel::dmesg_entry;
use crate::model::UsbDevice;
use crate::monitor::{closed_off, event_on, opened};
use crate::seqs::first_of;
use crate::snapshot::furthest;
use crate::text::{
    after_prefix, begins_with, cut_first, filled, found_at, is_white, lemma_first_char, lines_of,
    trimmed, without_return, word_len, words,
};

verus! {

/// A text is read line by line: what stands before the first break is its first
/// line, less a carriage return.
pub proof fn the_first_line_ends_at_the_break(a: Seq<char>, rest: Seq<char>)
    requires
        !a.contains('\n'),
    ensures
        lines_of(a + seq!['\n'] + rest) == seq![without_return(a)] + lines_of(rest),
        a.len() > 0 ==> lines_of(a) == seq![a],
{
    let s = a + seq!['\n'] + rest;
    assert forall|k: int| 0 <= k < a.len() implies s[k] != '\n' && a[k] != '\n' by {
        assert(a.contains(a[k]));
        assert(s[k] == a[k]);
    }
    lemma_first_char(s, '\n', a.len() as int);
    lemma_first_char(a, '\n', a.len() as int);
    assert(s.take(a.len() as int) =~= a);
    assert(s.skip(a.len() as int + 1) =~= rest);
}

/// A word is not empty and holds no blank, and every text without blanks is one.
pub proof fn a_word_holds_no_blank(s: Seq<char>)
    ensures
        forall|i: int, k: int|
            0 <= i < words(s).len() && 0 <= k < words(s)[i].len() ==> !is_white(
                #[trigger] words(s)[i][k],
            ),
        forall|i: int| 0 <= i < words(s).len() ==> (#[trigger] words(s)[i]).len() > 0,
        s.len() > 0 && (forall|k: int| 0 <= k < s.len() ==> !is_white(#[trigger] s[k])) ==> words(s)
            == seq![s],
    decreases s.len(),
{
    if s.len() > 0 {
        if is_white(s[0]) {
            a_word_holds_no_blank(s.skip(1));
            assert(words(s) == words(s.skip(1)));
        } else {
            let n = lemma_len(s);
            let rest = s.skip(n);
            a_word_holds_no_blank(rest);
            let w = words(s);
            assert(w =~= seq![s.take(n)] + words(rest));
            assert forall|i: int, k: int|
                0 <= i < w.len() && 0 <= k < w[i].len() implies !is_white(#[trigger] w[i][k]) by {
                if i == 0 {
                    assert(w[0][k] == s[k]);
                } else {
                    assert(w[i] == words(rest)[i - 1]);
                    assert(!is_white(words(rest)[i - 1][k]));
                }
            }
            assert forall|i: int| 0 <= i < w.len() implies (#[trigger] w[i]).len() > 0 by {
                if i > 0 {
                    assert(w[i] == words(rest)[i - 1]);
                }
            }
            if forall|k: int| 0 <= k < s.len() ==> !is_white(#[trigger] s[k]) {
                assert(n == s.len());
                assert(s.take(n) =~= s);
                assert(words(rest) =~= Seq::<Seq<char>>::empty());
            }
        }
    } else {
        assert(words(s).len() == 0);
    }
}

proof fn lemma_len(s: Seq<char>) -> (n: int)
    requires
        s.len() > 0,
        !is_white(s[0]),
    ensures
        n == word_len(s),
        0 < n <= s.len(),
        forall|k: int| 0 <= k < n ==> !is_white(#[trigger] s[k]),
        n < s.len() ==> is_white(s[n]),
    decreases s.len(),
{
    let t = s.skip(1);
    if t.len() == 0 || is_white(t[0]) {
        if t.len() > 0 {
            assert(t[0] == s[1]);
        }
        assert(word_len(t) == 0);
        1
    } else {
        let m = lemma_len(t);
        assert forall|k: int| 0 <= k < m + 1 implies !is_white(#[trigger] s[k]) by {
            if k > 0 {
                assert(t[k - 1] == s[k]);
            }
        }
        if m < t.len() {
            assert(t[m] == s[m + 1]);
        }
        m + 1
    }
}

/// A line that opens with a time in brackets is that time and what follows.
pub proof fn a_bracketed_time_is_read(ts: Seq<char>, text: Seq<char>)
    requires
        !ts.contains(']'),
        trimmed(text).len() > 0,
    ensures
        dmesg_entry("["@ + ts + seq![']'] + text) matches Some(e) && e.text == trimmed(text)
            && e.timestamp == Some(filled("[{}]"@, seq![trimmed(ts)])) && e.monotonic
            == Double::parsed(trimmed(ts)),
{
    reveal_strlit("[");
    let line = "["@ + ts + seq![']'] + text;
    let rest = ts + seq![']'] + text;
    assert(line.subrange(0, 1) =~= "["@);
    assert(line.skip(1) =~= rest);
    assert(after_prefix(line, "["@) == Some(rest));
    assert forall|k: int| 0 <= k < ts.len() implies rest[k] != ']' by {
        assert(ts.contains(ts[k]));
        assert(rest[k] == ts[k]);
    }
    lemma_first_char(rest, ']', ts.len() as int);
    assert(rest.take(ts.len() as int) =~= ts);
    assert(rest.skip(ts.len() as int + 1) =~= text);
    assert(cut_first(rest, ']') == Some((ts, text)));
}

/// A mount names a device and where it is; a swap names a device; what is no
/// device is neither; and the table of swaps has a line above it.
pub proof fn a_mount_names_its_device(l: Seq<char>, ls: Seq<Seq<char>>)
    ensures
        words(l).len() >= 2 && begins_with(words(l)[0], "/dev/"@) ==> mount_line()(l).len() == 1
            && mount_line()(l)[0].node == words(l)[0] && mount_line()(l)[0].kind == Use::Mounted(
            unescaped(words(l)[1]),
        ),
        words(l).len() < 2 || !begins_with(words(l)[0], "/dev/"@) ==> mount_line()(l).len() == 0,
        words(l).len() >= 1 && begins_with(words(l)[0], "/dev/"@) ==> swap_line()(l).len() == 1
            && swap_line()(l)[0].node == words(l)[0] && swap_line()(l)[0].kind == Use::Swap,
        words(l).len() < 1 || !begins_with(words(l)[0], "/dev/"@) ==> swap_line()(l).len() == 0,
        ls.len() > 0 ==> below_header(ls) == ls.skip(1),
{
}

/// A partition is of the disk that it lies in; anything else is of none.
pub proof fn a_partition_is_of_its_disk(stack: Stack, name: Seq<char>)
    ensures
        stack.whole_disk(name) matches Some(d) ==> d.len() > 0 && d != "block"@ && (first_of(
            stack.nodes@,
            crate::block::node_called(name),
        ) matches Some(n) && n.is_partition && n.parent is Some && d == crate::root::name_of(
            n.parent->0@,
        )),
        first_of(stack.nodes@, crate::block::node_called(name)) matches Some(n) ==> (
        !n.is_partition || n.parent is None ==> stack.whole_disk(name) is None),
{
}

/// A uevent names what happened, where, and to what.
pub proof fn a_uevent_is_read_by_its_words(line: Seq<char>, rest: Seq<char>)
    requires
        after_prefix(line, "UDEV"@) == Some(rest),
    ensures
        ({
            let ws = words(rest);
            let fits = ws.len() >= 4 && ws[0].len() > 0 && ws[0][0] == '[' && ws[0].last() == ']'
                && closed_off(opened(ws[3])).len() > 0;
            &&& event_on(line) is Some <==> fits
            &&& event_on(line) matches Some(e) ==> e.action == ws[1] && e.devpath == ws[2]
                && e.subsystem == closed_off(opened(ws[3]))
        }),
{
}

/// The helper is looked for beside the program, then in the system's places.
pub proof fn the_helper_is_beside_the_program(dir: Seq<char>, exe: Seq<char>)
    requires
        !exe.contains('/'),
    ensures
        beside(dir + "/"@ + exe) == Some(dir + "/usbdiag"@),
        places(None) == seq!["/usr/local/bin/usbdiag"@, "/usr/bin/usbdiag"@],
        dir + "/usbdiag"@ != "/usr/local/bin/usbdiag"@ ==> places(Some(dir + "/"@ + exe)) == seq![
            dir + "/usbdiag"@,
            "/usr/local/bin/usbdiag"@,
            "/usr/bin/usbdiag"@,
        ],
{
    reveal_strlit("/");
    let s = dir + "/"@ + exe;
    crate::text::lemma_after_last(s, '/');
    let k = crate::text::after_last(s, '/');
    assert(s[dir.len() as int] == '/');
    if k - 1 > dir.len() {
        assert(exe.contains(exe[k - 2 - dir.len()]));
    }
    assert(s.take(k - 1) =~= dir);
    assert(places(None) =~= seq!["/usr/local/bin/usbdiag"@, "/usr/bin/usbdiag"@]);
    assert(seq![dir + "/usbdiag"@] + places(None) =~= seq![
        dir + "/usbdiag"@,
        "/usr/local/bin/usbdiag"@,
        "/usr/bin/usbdiag"@,
    ]);
}

/// A disk is of the device that its path names last.
pub proof fn a_disk_is_of_the_last_device_named(devs: Seq<UsbDevice>, path: Seq<char>)
    ensures
        furthest(devs, path) is None <==> (forall|i: int|
            0 <= i < devs.len() ==> found_at(
                path,
                filled("/{}/"@, seq![(#[trigger] devs[i]).sysfs_name@]),
            ) is None),
        furthest(devs, path) matches Some((at, d)) ==> devs.contains(d) && found_at(
            path,
            filled("/{}/"@, seq![d.sysfs_name@]),
        ) == Some(at) && forall|i: int|
            0 <= i < devs.len() ==> (found_at(
                path,
                filled("/{}/"@, seq![(#[trigger] devs[i]).sysfs_name@]),
            ) matches Some(k) ==> k <= at),
    decreases devs.len(),
{
    if devs.len() > 0 {
        let t = devs.drop_last();
        a_disk_is_of_the_last_device_named(t, path);
        assert(devs[devs.len() - 1] == devs.last());
        assert forall|i: int| 0 <= i < t.len() implies #[trigger] devs[i] == t[i] by {}
        if let Some((at, d)) = furthest(t, path) {
            let i = choose|i: int| 0 <= i < t.len() && t[i] == d;
            assert(devs[i] == d);
        } else {
            assert forall|i: int| 0 <= i < t.len() implies found_at(
                path,
                filled("/{}/"@, seq![(#[trigger] devs[i]).sysfs_name@]),
            ) is None by {
                assert(found_at(path, filled("/{}/"@, seq![t[i].sysfs_name@])) is None);
            }
        }
        if furthest(devs, path) is Some {
            let (at, d) = furthest(devs, path)->0;
            assert forall|i: int| 0 <= i < devs.len() implies (found_at(
                path,
                filled("/{}/"@, seq![(#[trigger] devs[i]).sysfs_name@]),
            ) matches Some(k) ==> k <= at) by {
                if i < t.len() {
                    assert(t[i] == devs[i]);
                }
            }
        }
    }
}

} // verus!
