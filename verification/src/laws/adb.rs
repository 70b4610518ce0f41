//! What is read out of what adb and the system print, and which adb is used.

use crate::adb::{
    candidates_in, classify, device_row, device_rows, devices, exe_of, field, fields_of,
    first_present, host_port, listener, marked, mdns_line, mdns_support, parse_devices,
    parse_mdns_check, parse_ss_pid, probe_check_command, probe_server_command, resolve_adb,
    same_binary, search_path, split_host_port, ss_pid, text_pairs, version_of, wireless_devices,
    Device, DeviceView, Listener, MdnsSupport, ProbeCommand, Transport, Verdict,
};
use crate::laws::lists::{a_pick_is_one_list, is_pick, lemma_filter_picks, lemma_same_pick};
use crate::laws::num::a_written_number_is_read_back;
use crate::laws::text::{
    a_search_gives_the_first, a_split_from_the_end, a_split_is_at_the_first,
    an_occurrence_has_a_before_and_an_after, blank, is_line, is_word, joined_parts_are_split_again,
    nothing_else_is_a_prefix, prefixes_and_suffixes, written_lines_are_read_back,
    written_words_are_read_back,
};
use crate::num::{decimal, lemma_decimal_digits, port_number};
use crate::path::same_path;
use crate::text::{
    any_in, chomp, contains, ends_with, find_map, is_space, join, lemma_scan, lemma_scan_is, lines,
    matches_at, opt_text, scan, starts_with, strip_prefix, text_of_lines, texts, trim, trim_end,
    words, Class,
};
use vstd::prelude::*;

verus! {

// ---------------------------------------------------------------------------
// The mDNS check and the version
// ---------------------------------------------------------------------------

/// A pattern that holds no end of a line occurs in a text exactly where it occurs in a line of it.
pub proof fn an_occurrence_is_within_a_line(s: Seq<char>, p: Seq<char>)
    requires
        p.len() > 0,
        !p.contains('\n'),
        !p.contains('\r'),
    ensures
        contains(s, p) <==> exists|i: int|
            0 <= i < lines(s).len() && contains(#[trigger] lines(s)[i], p),
    decreases s.len(),
{
    if s.len() > 0 {
        let n = scan(s, 0, Class::Is('\n'));
        lemma_scan(s, 0, Class::Is('\n'));
        if n >= s.len() {
            assert(lines(s)[0] == s);
        } else {
            let head = chomp(s.take(n));
            let rest = s.skip(n + 1);
            an_occurrence_is_within_a_line(rest, p);
            assert(lines(s) == seq![head] + lines(rest));
            if contains(s, p) {
                let k = choose|k: int| matches_at(s, p, k);
                let w = s.subrange(k, k + p.len() as int);
                if k > n {
                    assert(rest.subrange(k - n - 1, k - n - 1 + p.len() as int) == w);
                    assert(matches_at(rest, p, k - n - 1));
                    let i = choose|i: int|
                        0 <= i < lines(rest).len() && contains(#[trigger] lines(rest)[i], p);
                    assert(lines(s)[i + 1] == lines(rest)[i]);
                } else {
                    if k + p.len() > n {
                        assert(w[n - k] == '\n');
                        assert(p.contains('\n'));
                    }
                    if k + p.len() == n && s[n - 1] == '\r' {
                        assert(w[p.len() - 1] == '\r');
                        assert(p.contains('\r'));
                    }
                    assert(head.subrange(k, k + p.len() as int) == w);
                    assert(matches_at(head, p, k));
                    assert(lines(s)[0] == head);
                }
            }
            if exists|i: int| 0 <= i < lines(s).len() && contains(#[trigger] lines(s)[i], p) {
                let i = choose|i: int|
                    0 <= i < lines(s).len() && contains(#[trigger] lines(s)[i], p);
                if i == 0 {
                    let k = choose|k: int| matches_at(head, p, k);
                    assert(s.subrange(k, k + p.len() as int) == head.subrange(
                        k,
                        k + p.len() as int,
                    ));
                    assert(matches_at(s, p, k));
                } else {
                    assert(lines(s)[i] == lines(rest)[i - 1]);
                    let k = choose|k: int| matches_at(rest, p, k);
                    assert(s.subrange(k + n + 1, k + n + 1 + p.len() as int) == rest.subrange(
                        k,
                        k + p.len() as int,
                    ));
                    assert(matches_at(s, p, k + n + 1));
                }
            }
        }
    } else {
        if contains(s, p) {
            let k = choose|k: int| matches_at(s, p, k);
        }
    }
}

/// A build has a backend exactly where the words `mdns daemon version` occur in what it answers,
/// and what is kept of the answer is the first line that holds them.
pub proof fn a_backend_is_one_that_names_its_version(out: &str, r: MdnsSupport)
    requires
        call_ensures(parse_mdns_check, (out,), r),
    ensures
        r is Present <==> exists|a: Seq<char>, b: Seq<char>|
            out@ == #[trigger] (a + "mdns daemon version"@ + b),
        r matches MdnsSupport::Present(line) ==> exists|i: int|
            {
                &&& 0 <= i < lines(out@).len()
                &&& line@ == trim(#[trigger] lines(out@)[i])
                &&& contains(lines(out@)[i], "mdns daemon version"@)
                &&& forall|j: int|
                    0 <= j < i ==> !contains(#[trigger] lines(out@)[j], "mdns daemon version"@)
            },
{
    let p = "mdns daemon version"@;
    reveal_strlit("mdns daemon version");
    an_occurrence_has_a_before_and_an_after(out@, p);
    an_occurrence_is_within_a_line(out@, p);
    let f = |l: Seq<char>|
        if contains(l, "mdns daemon version"@) {
            Some(trim(l))
        } else {
            None
        };
    a_search_gives_the_first(lines(out@), f);
    assert(mdns_line(out@) == find_map(lines(out@), f));
    match mdns_line(out@) {
        Some(x) => {
            let i = choose|i: int|
                {
                    &&& 0 <= i < lines(out@).len()
                    &&& #[trigger] f(lines(out@)[i]) == Some(x)
                    &&& forall|j: int| 0 <= j < i ==> f(#[trigger] lines(out@)[j]) is None
                };
            assert(contains(lines(out@)[i], p));
            assert forall|j: int| 0 <= j < i implies !contains(#[trigger] lines(out@)[j], p) by {
                assert(f(lines(out@)[j]) is None);
            }
        },
        None => {
            assert forall|i: int| 0 <= i < lines(out@).len() implies !contains(
                #[trigger] lines(out@)[i],
                p,
            ) by {
                assert(f(lines(out@)[i]) is None);
            }
        },
    }
}

/// The version is what follows `Version ` on the first line that begins with it. Where no line
/// does, there is none.
pub proof fn the_version_is_on_its_own_line(out: &str, r: Option<String>)
    requires
        call_ensures(version_of, (out,), r),
    ensures
        r is Some <==> exists|i: int|
            0 <= i < lines(out@).len() && starts_with(#[trigger] lines(out@)[i], "Version "@),
        r matches Some(v) ==> exists|i: int, rest: Seq<char>|
            {
                &&& 0 <= i < lines(out@).len()
                &&& #[trigger] lines(out@)[i] == #[trigger] ("Version "@ + rest)
                &&& v@ == trim(rest)
                &&& forall|j: int|
                    0 <= j < i ==> !starts_with(#[trigger] lines(out@)[j], "Version "@)
            },
{
    let p = "Version "@;
    let ls = lines(out@);
    let f = |l: Seq<char>| strip_prefix(l, "Version "@);
    a_search_gives_the_first(ls, f);
    match find_map(ls, f) {
        Some(x) => {
            let i = choose|i: int|
                {
                    &&& 0 <= i < ls.len()
                    &&& #[trigger] f(ls[i]) == Some(x)
                    &&& forall|j: int| 0 <= j < i ==> f(#[trigger] ls[j]) is None
                };
            assert(starts_with(ls[i], p));
            assert(ls[i] == p + x) by {
                assert(ls[i].subrange(0, p.len() as int) == p);
                assert(ls[i] == ls[i].subrange(0, p.len() as int) + ls[i].skip(p.len() as int));
            }
            assert forall|j: int| 0 <= j < i implies !starts_with(#[trigger] ls[j], p) by {
                assert(f(ls[j]) is None);
            }
        },
        None => {
            assert forall|i: int| 0 <= i < ls.len() implies !starts_with(#[trigger] ls[i], p) by {
                assert(f(ls[i]) is None);
            }
        },
    }
}

// ---------------------------------------------------------------------------
// Serials
// ---------------------------------------------------------------------------

/// A host and a port that were written together come apart again, in brackets or not.
pub proof fn a_written_serial_comes_apart(
    serial: &str,
    host: Seq<char>,
    port: u16,
    r: Option<(&str, u16)>,
)
    requires
        call_ensures(split_host_port, (serial,), r),
    ensures
        host.len() > 0 && host[0] != '[' && !host.contains(':') && serial@ == host + ":"@ + decimal(
            port as nat,
        ) ==> (r matches Some((h, p)) && h@ == host && p == port),
        !host.contains(']') && serial@ == "["@ + host + "]:"@ + decimal(port as nat) ==> (
        r matches Some((h, p)) && h@ == host && p == port),
{
    reveal_strlit(":");
    reveal_strlit("[");
    reveal_strlit("]:");
    let d = decimal(port as nat);
    lemma_decimal_digits(port as nat);
    a_written_number_is_read_back(port as nat, d, 0);
    if host.len() > 0 && host[0] != '[' && !host.contains(':') && serial@ == host + ":"@ + d {
        assert(serial@ == host.push(':') + d);
        a_split_from_the_end(host, ':', d);
        assert(serial@[0] == host[0]);
        if any_in(host, Class::Is(':')) {
            let i = choose|i: int| 0 <= i < host.len() && Class::Is(':').has(#[trigger] host[i]);
            assert(host.contains(':'));
        }
        assert(host_port(serial@) == Some((host, port as nat)));
    }
    if !host.contains(']') && serial@ == "["@ + host + "]:"@ + d {
        let rest = serial@.skip(1);
        assert(serial@[0] == '[');
        assert(rest == host + "]:"@ + d);
        let n = host.len() as int;
        assert(rest[n] == ']');
        assert forall|j: int| 0 <= j < n implies !Class::Is(']').has(#[trigger] rest[j]) by {
            assert(rest[j] == host[j]);
        }
        lemma_scan_is(rest, 0, Class::Is(']'), n);
        assert(rest.skip(n + 1) == seq![':'] + d);
        assert(rest.skip(n + 1).skip(1) == d);
        assert(rest.take(n) == host);
        assert(host_port(serial@) == Some((host, port as nat)));
    }
}

/// What is taken for a host and a port was written as one: in brackets and a colon after them, or
/// with one colon in it. The port is a number that fits.
pub proof fn nothing_else_is_a_host_and_a_port(serial: &str, r: Option<(&str, u16)>)
    requires
        call_ensures(split_host_port, (serial,), r),
    ensures
        r matches Some((h, p)) ==> exists|digits: Seq<char>|
            {
                &&& port_number(digits) == Some(p as nat)
                &&& ({
                    ||| serial@ == #[trigger] (h@.push(':') + digits) && h@.len() > 0
                        && !h@.contains(':') && h@[0] != '['
                    ||| serial@ == "["@ + h@ + "]:"@ + digits && !h@.contains(']')
                })
            },
{
    reveal_strlit("[");
    reveal_strlit("]:");
    let s = serial@;
    if let Some((h, p)) = r {
        if s[0] == '[' {
            let rest = s.skip(1);
            let n = scan(rest, 0, Class::Is(']'));
            lemma_scan(rest, 0, Class::Is(']'));
            let digits = rest.skip(n + 1).skip(1);
            assert(s =~= "["@ + h@ + "]:"@ + digits);
            if h@.contains(']') {
                let j = choose|j: int| 0 <= j < h@.len() && h@[j] == ']';
                assert(!Class::Is(']').has(rest[j]));
            }
            assert((h@.push(':') + digits).len() >= 0);
        } else {
            crate::text::lemma_last_index(s, ':');
            let k = crate::text::last_index(s, ':');
            let digits = s.skip(k + 1);
            assert(s =~= h@.push(':') + digits);
            if h@.contains(':') {
                let j = choose|j: int| 0 <= j < h@.len() && h@[j] == ':';
                assert(Class::Is(':').has(h@[j]));
            }
            assert(s[0] == h@[0]);
        }
    }
}

/// The four kinds of serial: one that begins like an emulator's, one that ends like adb's own mDNS
/// names, one that is a host and a port, and all others, which are on a cable.
pub open spec fn names_transport(serial: Seq<char>, t: Transport) -> bool {
    let emulator = starts_with(serial, "emulator-"@);
    let mdns = ends_with(serial, "._adb-tls-connect._tcp"@);
    let tcp = host_port(serial) is Some;
    &&& t is Emulator <==> emulator
    &&& t is Mdns <==> !emulator && mdns
    &&& t is Tcp <==> !emulator && !mdns && tcp
    &&& t is Usb <==> !emulator && !mdns && !tcp
}

pub proof fn a_serial_tells_how_it_is_attached(serial: &str, r: Transport)
    requires
        call_ensures(classify, (serial,), r),
    ensures
        names_transport(serial@, r),
        r.wireless() <==> r is Tcp || r is Mdns,
{
}

// ---------------------------------------------------------------------------
// Device lists
// ---------------------------------------------------------------------------

/// A field as the words of a row have it: the last word that begins with the key is the key and the
/// value, whole; where no word does, there is none.
pub open spec fn reads_field(
    row: Seq<Seq<char>>,
    key: Seq<char>,
    value: Option<Seq<char>>,
) -> bool {
    match value {
        Some(v) => exists|k: int|
            {
                &&& 2 <= k < row.len()
                &&& #[trigger] row[k] == key + v
                &&& forall|j: int| k < j < row.len() ==> !starts_with(#[trigger] row[j], key)
            },
        None => forall|j: int| 2 <= j < row.len() ==> !starts_with(#[trigger] row[j], key),
    }
}

/// A device as the words of its row have it.
pub open spec fn reads_row(row: Seq<Seq<char>>, d: DeviceView) -> bool {
    &&& d.serial == row[0]
    &&& row.len() > 1 ==> d.state == row[1]
    &&& row.len() == 1 ==> d.state == "unknown"@
    &&& reads_field(row, "model:"@, d.model)
    &&& reads_field(row, "product:"@, d.product)
    &&& reads_field(row, "device:"@, d.device)
    &&& names_transport(row[0], d.transport)
}

/// A row that describes a device: some words, not the heading.
pub open spec fn is_row(row: Seq<Seq<char>>) -> bool {
    &&& row.len() > 0
    &&& forall|i: int| 0 <= i < row.len() ==> is_word(#[trigger] row[i])
    &&& !starts_with(join(row, " "@), "List of devices"@)
}

proof fn lemma_field(words: Seq<Seq<char>>, key: Seq<char>)
    ensures
        match field(words, key) {
            Some(v) => exists|k: int|
                {
                    &&& 0 <= k < words.len()
                    &&& #[trigger] words[k] == key + v
                    &&& forall|j: int| k < j < words.len() ==> !starts_with(#[trigger] words[j], key)
                },
            None => forall|j: int| 0 <= j < words.len() ==> !starts_with(#[trigger] words[j], key),
        },
    decreases words.len(),
{
    if words.len() > 0 {
        let last = words.last();
        let n = words.len() - 1;
        if starts_with(last, key) {
            assert(last.subrange(0, key.len() as int) == key);
            assert(last == key + last.skip(key.len() as int));
            assert(words[n] == key + last.skip(key.len() as int));
        } else {
            let init = words.drop_last();
            lemma_field(init, key);
            match field(init, key) {
                Some(v) => {
                    let k = choose|k: int|
                        {
                            &&& 0 <= k < init.len()
                            &&& #[trigger] init[k] == key + v
                            &&& forall|j: int|
                                k < j < init.len() ==> !starts_with(#[trigger] init[j], key)
                        };
                    assert(words[k] == key + v);
                    assert forall|j: int| k < j < words.len() implies !starts_with(
                        #[trigger] words[j],
                        key,
                    ) by {
                        if j < n {
                            assert(init[j] == words[j]);
                        }
                    }
                },
                None => {
                    assert forall|j: int| 0 <= j < words.len() implies !starts_with(
                        #[trigger] words[j],
                        key,
                    ) by {
                        if j < n {
                            assert(init[j] == words[j]);
                        }
                    }
                },
            }
        }
    }
}

proof fn lemma_reads_field(row: Seq<Seq<char>>, key: Seq<char>)
    ensures
        reads_field(row, key, field(fields_of(row), key)),
{
    let f = fields_of(row);
    lemma_field(f, key);
    match field(f, key) {
        Some(v) => {
            let k = choose|k: int|
                {
                    &&& 0 <= k < f.len()
                    &&& #[trigger] f[k] == key + v
                    &&& forall|j: int| k < j < f.len() ==> !starts_with(#[trigger] f[j], key)
                };
            assert(row[k + 2] == key + v);
            assert forall|j: int| k + 2 < j < row.len() implies !starts_with(
                #[trigger] row[j],
                key,
            ) by {
                assert(f[j - 2] == row[j]);
            }
        },
        None => {
            assert forall|j: int| 2 <= j < row.len() implies !starts_with(#[trigger] row[j], key) by {
                assert(f[j - 2] == row[j]);
            }
        },
    }
}

pub proof fn lemma_row(row: Seq<Seq<char>>)
    requires
        is_row(row),
    ensures
        device_row(join(row, " "@)) is Some,
        reads_row(row, device_row(join(row, " "@))->0),
{
    let l = join(row, " "@);
    written_words_are_read_back(row);
    assert(trim_end(l) == l);
    lemma_reads_field(row, "model:"@);
    lemma_reads_field(row, "product:"@);
    lemma_reads_field(row, "device:"@);
}

proof fn lemma_row_is_line(row: Seq<Seq<char>>)
    requires
        row.len() > 0,
        forall|i: int| 0 <= i < row.len() ==> is_word(#[trigger] row[i]),
    ensures
        is_line(join(row, " "@)),
        join(row, " "@).len() > 0,
        join(row, " "@).last() != '\r',
    decreases row.len(),
{
    reveal_strlit(" ");
    let w = row.last();
    assert(is_word(w));
    assert(!is_space(w[w.len() - 1]));
    if row.len() > 1 {
        let init = row.drop_last();
        assert forall|i: int| 0 <= i < init.len() implies is_word(#[trigger] init[i]) by {
            assert(init[i] == row[i]);
        }
        lemma_row_is_line(init);
        let s = join(row, " "@);
        let a = join(init, " "@);
        assert(s == a + " "@ + w);
        assert forall|i: int| 0 <= i < s.len() implies #[trigger] s[i] != '\n' by {
            if i < a.len() {
                assert(s[i] == a[i]);
            } else if i > a.len() {
                assert(s[i] == w[i - a.len() - 1]);
            }
        }
        assert(s.last() == w.last());
    }
}

pub open spec fn written(rows: Seq<Seq<Seq<char>>>) -> Seq<char> {
    text_of_lines(rows.map_values(|row: Seq<Seq<char>>| join(row, " "@)))
}

proof fn lemma_rows(ls: Seq<Seq<char>>)
    requires
        forall|i: int| 0 <= i < ls.len() ==> device_row(#[trigger] ls[i]) is Some,
    ensures
        device_rows(ls).len() == ls.len(),
        forall|i: int|
            0 <= i < ls.len() ==> Some(#[trigger] device_rows(ls)[i]) == device_row(ls[i]),
    decreases ls.len(),
{
    if ls.len() > 0 {
        let init = ls.drop_last();
        assert forall|i: int| 0 <= i < init.len() implies device_row(#[trigger] init[i]) is Some by {
            assert(init[i] == ls[i]);
        }
        lemma_rows(init);
        assert(device_row(ls[ls.len() - 1]) is Some);
        assert forall|i: int| 0 <= i < ls.len() implies Some(#[trigger] device_rows(ls)[i])
            == device_row(ls[i]) by {
            if i < init.len() {
                assert(device_rows(ls)[i] == device_rows(init)[i]);
                assert(init[i] == ls[i]);
            }
        }
    }
}

/// A device list that was written row by row is read back: one device for each row, in order, and
/// every part of it as it was written.
pub proof fn a_written_list_is_read_back(
    rows: Seq<Seq<Seq<char>>>,
    text: &str,
    r: Vec<Device>,
)
    requires
        forall|i: int| 0 <= i < rows.len() ==> is_row(#[trigger] rows[i]),
        text@ == written(rows),
        call_ensures(parse_devices, (text,), r),
    ensures
        r@.len() == rows.len(),
        forall|i: int| 0 <= i < rows.len() ==> reads_row(rows[i], (#[trigger] r@[i])@),
{
    let ls = rows.map_values(|row: Seq<Seq<char>>| join(row, " "@));
    assert forall|i: int| 0 <= i < ls.len() implies is_line(#[trigger] ls[i]) && (ls[i].len() > 0
        ==> ls[i].last() != '\r') by {
        assert(is_row(rows[i]));
        lemma_row_is_line(rows[i]);
    }
    written_lines_are_read_back(ls);
    assert forall|i: int| 0 <= i < ls.len() implies device_row(#[trigger] ls[i]) is Some by {
        assert(is_row(rows[i]));
        lemma_row(rows[i]);
    }
    lemma_rows(ls);
    assert(devices(r@).len() == r@.len());
    assert forall|i: int| 0 <= i < rows.len() implies reads_row(rows[i], (#[trigger] r@[i])@) by {
        assert(is_row(rows[i]));
        lemma_row(rows[i]);
        assert(devices(r@)[i] == r@[i]@);
        assert(Some(device_rows(ls)[i]) == device_row(ls[i]));
    }
}

/// The model, the product and the device of a row come back whole, whatever they are.
pub proof fn a_field_comes_back_whole(
    serial: Seq<char>,
    state: Seq<char>,
    product: Seq<char>,
    model: Seq<char>,
    device: Seq<char>,
    text: &str,
    r: Vec<Device>,
)
    requires
        is_word(serial),
        is_word(state),
        is_word("product:"@ + product),
        is_word("model:"@ + model),
        is_word("device:"@ + device),
        is_row(
            seq![
                serial,
                state,
                "product:"@ + product,
                "model:"@ + model,
                "device:"@ + device,
            ],
        ),
        text@ == written(
            seq![
                seq![
                    serial,
                    state,
                    "product:"@ + product,
                    "model:"@ + model,
                    "device:"@ + device,
                ],
            ],
        ),
        call_ensures(parse_devices, (text,), r),
    ensures
        r@.len() == 1,
        r@[0].serial@ == serial,
        r@[0].state@ == state,
        opt_text(r@[0].product) == Some(product),
        opt_text(r@[0].model) == Some(model),
        opt_text(r@[0].device) == Some(device),
{
    let row = seq![
        serial,
        state,
        "product:"@ + product,
        "model:"@ + model,
        "device:"@ + device,
    ];
    let rows = seq![row];
    assert forall|i: int| 0 <= i < rows.len() implies is_row(#[trigger] rows[i]) by {}
    a_written_list_is_read_back(rows, text, r);
    reveal_strlit("product:");
    reveal_strlit("model:");
    reveal_strlit("device:");
    let d = r@[0]@;
    assert(reads_row(rows[0], d));
    prefixes_and_suffixes("product:"@, product);
    prefixes_and_suffixes("model:"@, model);
    prefixes_and_suffixes("device:"@, device);
    assert(starts_with(row[2], "product:"@));
    assert(starts_with(row[3], "model:"@));
    assert(starts_with(row[4], "device:"@));
    assert(reads_field(row, "product:"@, d.product));
    assert(reads_field(row, "model:"@, d.model));
    assert(reads_field(row, "device:"@, d.device));
    assert(row[2][0] == 'p' && row[3][0] == 'm' && row[4][0] == 'd');
    lemma_same_tail(row, "product:"@, d.product, product, 2);
    lemma_same_tail(row, "model:"@, d.model, model, 3);
    lemma_same_tail(row, "device:"@, d.device, device, 4);
}

proof fn lemma_same_tail(
    row: Seq<Seq<char>>,
    key: Seq<char>,
    value: Option<Seq<char>>,
    v: Seq<char>,
    at: int,
)
    requires
        2 <= at < row.len(),
        row[at] == key + v,
        key.len() > 0,
        forall|k: int| 0 <= k < row.len() && k != at && 2 <= k ==> #[trigger] row[k][0] != key[0],
        reads_field(row, key, value),
    ensures
        value == Some(v),
{
    prefixes_and_suffixes(key, v);
    match value {
        Some(x) => {
            let k = choose|k: int|
                {
                    &&& 2 <= k < row.len()
                    &&& #[trigger] row[k] == key + x
                    &&& forall|j: int| k < j < row.len() ==> !starts_with(#[trigger] row[j], key)
                };
            assert(row[k][0] == key[0]);
            assert(k == at);
            assert(x == (key + x).skip(key.len() as int));
            assert(v == (key + v).skip(key.len() as int));
        },
        None => {
            assert(starts_with(row[at], key));
        },
    }
}

/// The heading and blank lines describe nothing, wherever they stand: what is read of a list is
/// what is read of its two parts, and of such a line alone nothing is read.
pub proof fn headings_and_blank_lines_describe_nothing(l: Seq<char>, text: &str, r: Vec<Device>)
    requires
        is_line(l),
        blank(l) || starts_with(l, "List of devices"@),
        text@ == l.push('\n') || text@ == l,
        call_ensures(parse_devices, (text,), r),
    ensures
        r@.len() == 0,
{
    assert forall|j: int| 0 <= j < l.len() implies !Class::Is('\n').has(#[trigger] l[j]) by {}
    let c = chomp(l);
    lemma_no_row(l);
    lemma_no_row(c);
    crate::laws::text::a_line_ends_at_its_break(l, Seq::empty());
    if text@ == l.push('\n') {
        lemma_scan_is(text@, 0, Class::Is('\n'), l.len() as int);
        assert(text@.take(l.len() as int) == l);
        assert(text@.skip(l.len() as int + 1) == Seq::<char>::empty());
        assert(lines(text@) == seq![c]);
        assert(seq![c].drop_last() == Seq::<Seq<char>>::empty());
        assert(device_rows(seq![c].drop_last()).len() == 0);
    } else if l.len() > 0 {
        assert(lines(text@) == seq![l]);
        assert(seq![l].drop_last() == Seq::<Seq<char>>::empty());
        assert(device_rows(seq![l].drop_last()).len() == 0);
    }
    assert(devices(r@).len() == r@.len());
}

proof fn lemma_no_row(l: Seq<char>)
    requires
        blank(l) || starts_with(l, "List of devices"@),
    ensures
        device_row(l) is None,
        blank(chomp(l)) || starts_with(chomp(l), "List of devices"@),
{
    let p = "List of devices"@;
    reveal_strlit("List of devices");
    if blank(l) {
        lemma_trim_blank(l);
        if l.len() > 0 {
            assert(blank(l.drop_last())) by {
                assert forall|i: int| 0 <= i < l.drop_last().len() implies is_space(
                    #[trigger] l.drop_last()[i],
                ) by {
                    assert(l.drop_last()[i] == l[i]);
                }
            }
        }
    } else {
        assert(l.subrange(0, p.len() as int) == p);
        assert(l[14] == p[14]) by {
            assert(l.subrange(0, p.len() as int)[14] == l[14]);
        }
        lemma_trim_keeps(l, p);
        if l.last() == '\r' {
            assert(l.len() > 15);
            assert(l.drop_last().subrange(0, p.len() as int) == p);
        }
    }
}

proof fn lemma_trim_blank(l: Seq<char>)
    requires
        blank(l),
    ensures
        trim_end(l).len() == 0,
    decreases l.len(),
{
    if l.len() > 0 {
        assert(is_space(l[l.len() - 1]));
        assert(blank(l.drop_last())) by {
            assert forall|i: int| 0 <= i < l.drop_last().len() implies is_space(
                #[trigger] l.drop_last()[i],
            ) by {
                assert(l.drop_last()[i] == l[i]);
            }
        }
        lemma_trim_blank(l.drop_last());
    }
}

proof fn lemma_trim_keeps(l: Seq<char>, p: Seq<char>)
    requires
        p.len() > 0,
        !is_space(p.last()),
        starts_with(l, p),
    ensures
        starts_with(trim_end(l), p),
    decreases l.len(),
{
    assert(l.subrange(0, p.len() as int) == p);
    if is_space(l.last()) {
        if l.len() == p.len() {
            assert(l.subrange(0, p.len() as int).last() == l.last());
        }
        assert(l.drop_last().subrange(0, p.len() as int) == p);
        lemma_trim_keeps(l.drop_last(), p);
    }
}

/// A list may be cut at the end of any line: what is read of the whole is what is read of the
/// parts.
pub proof fn a_list_is_read_in_parts(
    a: &str,
    b: &str,
    whole: &str,
    ra: Vec<Device>,
    rb: Vec<Device>,
    r: Vec<Device>,
)
    requires
        a@.len() == 0 || a@.last() == '\n',
        whole@ == a@ + b@,
        call_ensures(parse_devices, (a,), ra),
        call_ensures(parse_devices, (b,), rb),
        call_ensures(parse_devices, (whole,), r),
    ensures
        devices(r@) == devices(ra@) + devices(rb@),
{
    crate::adb::a_list_may_be_read_in_parts(a@, b@);
}

/// The wireless devices of a list are those attached over TCP or by mDNS: all of them, each once,
/// in the same order.
pub proof fn wireless_means_over_the_air(all: &[Device], r: Vec<Device>)
    requires
        call_ensures(wireless_devices, (all,), r),
    ensures
        is_pick(
            devices(all@),
            |d: DeviceView| d.transport is Tcp || d.transport is Mdns,
            devices(r@),
        ),
{
    let keep = |d: DeviceView| d.transport.wireless();
    lemma_filter_picks(devices(all@), keep);
    lemma_same_pick(
        devices(all@),
        keep,
        |d: DeviceView| d.transport is Tcp || d.transport is Mdns,
        devices(r@),
    );
}

// ---------------------------------------------------------------------------
// Which adb is used
// ---------------------------------------------------------------------------

/// `adb` in a directory: behind a slash, where the directory does not end in one.
pub open spec fn adb_in(dir: Seq<char>) -> Seq<char> {
    if dir.len() == 0 || dir.last() == '/' {
        dir + "adb"@
    } else {
        dir + "/adb"@
    }
}

/// The search path gives an `adb` for each of its directories that is named, in order.
pub proof fn every_directory_is_searched(dirs: Seq<Seq<char>>, named: Seq<Seq<char>>)
    requires
        dirs.len() > 0,
        forall|i: int| 0 <= i < dirs.len() ==> !(#[trigger] dirs[i]).contains(':'),
        is_pick(dirs, |d: Seq<char>| d.len() > 0, named),
    ensures
        search_path(Some(join(dirs, seq![':']))) == named.map_values(|d: Seq<char>| adb_in(d)),
{
    joined_parts_are_split_again(dirs, ':');
    let keep = |d: Seq<char>| d.len() > 0;
    lemma_filter_picks(dirs, keep);
    a_pick_is_one_list(dirs, keep, named, dirs.filter(keep));
    reveal_strlit("adb");
    reveal_strlit("/adb");
    let got = search_path(Some(join(dirs, seq![':'])));
    let want = named.map_values(|d: Seq<char>| adb_in(d));
    assert(got.len() == want.len());
    assert forall|i: int| 0 <= i < got.len() implies got[i] == want[i] by {
        let d = named[i];
        assert(d + seq!['/'] + "adb"@ == d + "/adb"@);
    }
    assert(got == want);
}

/// Where adb is looked for: an explicit choice before all, then the two SDK variables, then the
/// default place of an SDK, and the search path last of all. Each that is set has its place, and
/// nothing else has one.
pub proof fn an_sdk_comes_before_the_search_path(
    adb: Option<String>,
    sdk_root: Option<String>,
    android_home: Option<String>,
    home: &str,
    path: Option<String>,
    r: Vec<String>,
)
    requires
        call_ensures(candidates_in, (adb, sdk_root, android_home, home, path), r),
    ensures
        ({
            let c = texts(r@);
            let a: int = if adb is Some { 1 } else { 0 };
            let b: int = if sdk_root is Some { a + 1 } else { a };
            let d: int = if android_home is Some { b + 1 } else { b };
            &&& adb matches Some(p) ==> c[0] == p@
            &&& sdk_root matches Some(root) ==> c[a] == adb_in(
                crate::path::join(root@, "platform-tools"@),
            )
            &&& android_home matches Some(root) ==> c[b] == adb_in(
                crate::path::join(root@, "platform-tools"@),
            )
            &&& c[d] == crate::path::join(home@, "Android/Sdk/platform-tools/adb"@)
            &&& c.skip(d + 1) == search_path(opt_text(path))
            &&& path is None ==> c.len() == d + 1
            &&& c.len() >= d + 1
        }),
{
    let c = texts(r@);
    let a: int = if adb is Some { 1 } else { 0 };
    let b: int = if sdk_root is Some { a + 1 } else { a };
    let d: int = if android_home is Some { b + 1 } else { b };
    reveal_strlit("adb");
    reveal_strlit("/adb");
    if let Some(root) = sdk_root {
        lemma_adb_in(crate::path::join(root@, "platform-tools"@));
    }
    if let Some(root) = android_home {
        lemma_adb_in(crate::path::join(root@, "platform-tools"@));
    }
    let tail = search_path(opt_text(path));
    let head = c.take(d + 1);
    assert(c.len() == d + 1 + tail.len());
    assert(c.skip(d + 1) == tail);
}

proof fn lemma_adb_in(dir: Seq<char>)
    ensures
        crate::path::join(dir, "adb"@) == adb_in(dir),
{
    reveal_strlit("adb");
    reveal_strlit("/adb");
    assert(dir + seq!['/'] + "adb"@ == dir + "/adb"@);
}

/// The adb that is used is the first candidate that is a file, and there is none exactly where no
/// candidate is one.
pub proof fn the_first_file_is_used(all: &[(String, bool)], r: Result<String, String>)
    requires
        call_ensures(resolve_adb, (all,), r),
    ensures
        r is Ok <==> exists|i: int| 0 <= i < all@.len() && (#[trigger] all@[i]).1,
        r matches Ok(p) ==> exists|i: int|
            {
                &&& 0 <= i < all@.len()
                &&& (#[trigger] all@[i]).1
                &&& p@ == all@[i].0@
                &&& forall|j: int| 0 <= j < i ==> !(#[trigger] all@[j]).1
            },
{
    let c = marked(all@);
    lemma_first_present(c);
    match first_present(c) {
        Some(p) => {
            let i = choose|i: int|
                {
                    &&& 0 <= i < c.len()
                    &&& (#[trigger] c[i]).1
                    &&& p == c[i].0
                    &&& forall|j: int| 0 <= j < i ==> !(#[trigger] c[j]).1
                };
            assert(all@[i].1);
            assert forall|j: int| 0 <= j < i implies !(#[trigger] all@[j]).1 by {
                assert(!c[j].1);
            }
        },
        None => {
            assert forall|i: int| 0 <= i < all@.len() implies !(#[trigger] all@[i]).1 by {
                assert(!c[i].1);
            }
        },
    }
}

proof fn lemma_first_present(c: Seq<(Seq<char>, bool)>)
    ensures
        match first_present(c) {
            Some(p) => exists|i: int|
                {
                    &&& 0 <= i < c.len()
                    &&& (#[trigger] c[i]).1
                    &&& p == c[i].0
                    &&& forall|j: int| 0 <= j < i ==> !(#[trigger] c[j]).1
                },
            None => forall|i: int| 0 <= i < c.len() ==> !(#[trigger] c[i]).1,
        },
    decreases c.len(),
{
    if c.len() > 0 {
        if c[0].1 {
            assert(c[0].1);
        } else {
            let rest = c.skip(1);
            lemma_first_present(rest);
            match first_present(rest) {
                Some(p) => {
                    let i = choose|i: int|
                        {
                            &&& 0 <= i < rest.len()
                            &&& (#[trigger] rest[i]).1
                            &&& p == rest[i].0
                            &&& forall|j: int| 0 <= j < i ==> !(#[trigger] rest[j]).1
                        };
                    assert(c[i + 1].1);
                    assert forall|j: int| 0 <= j < i + 1 implies !(#[trigger] c[j]).1 by {
                        if j > 0 {
                            assert(!rest[j - 1].1);
                        }
                    }
                },
                None => {
                    assert forall|i: int| 0 <= i < c.len() implies !(#[trigger] c[i]).1 by {
                        if i > 0 {
                            assert(!rest[i - 1].1);
                        }
                    }
                },
            }
        }
    }
}

// ---------------------------------------------------------------------------
// Whose server it is
// ---------------------------------------------------------------------------

/// The process is the number behind the first `pid=`, all of it. Where there is no `pid=`, none is
/// read.
pub proof fn a_written_pid_is_read_back(
    a: Seq<char>,
    pid: u32,
    b: Seq<char>,
    text: &str,
    r: Option<u32>,
)
    requires
        call_ensures(parse_ss_pid, (text,), r),
    ensures
        !contains(text@, "pid="@) ==> r is None,
        text@ == a + "pid="@ + (decimal(pid as nat) + b) && (forall|j: int|
            0 <= j < a.len() ==> !#[trigger] matches_at(text@, "pid="@, j)) && (b.len() == 0 || !('0'
            <= b[0] <= '9')) ==> r == Some(pid),
{
    crate::laws::text::no_split_without_an_occurrence(text@, "pid="@);
    let d = decimal(pid as nat);
    let rest = d + b;
    lemma_decimal_digits(pid as nat);
    a_written_number_is_read_back(pid as nat, d, 0);
    if text@ == a + "pid="@ + rest && (forall|j: int|
        0 <= j < a.len() ==> !#[trigger] matches_at(text@, "pid="@, j)) && (b.len() == 0 || !('0'
        <= b[0] <= '9')) {
        a_split_is_at_the_first(a, "pid="@, rest);
        assert(rest[0] == d[0]);
        lemma_scan_is(rest, 0, Class::Digit, 0);
        let n = d.len() as int;
        assert forall|j: int| 0 <= j < n implies !Class::NotDigit.has(#[trigger] rest[j]) by {
            assert(rest[j] == d[j]);
        }
        if b.len() > 0 {
            assert(rest[n] == b[0]);
        }
        lemma_scan_is(rest, 0, Class::NotDigit, n);
        assert(rest.subrange(0, n) == d);
        assert(ss_pid(text@) == Some(pid as nat));
    }
}

/// An image that was replaced is named with a mark, which is no part of its path.
pub proof fn a_replaced_image_is_marked(path: Seq<char>, link: &str, r: (String, bool))
    requires
        call_ensures(exe_of, (link,), r),
    ensures
        link@ == path + " (deleted)"@ ==> r.1 && r.0@ == path,
        !ends_with(link@, " (deleted)"@) ==> !r.1 && r.0@ == link@,
{
    prefixes_and_suffixes(" (deleted)"@, path);
    nothing_else_is_a_prefix(link@, " (deleted)"@);
}

/// A server's own answer counts only where one process held the port before and after it was asked,
/// and that process runs the very binary, which nobody has replaced. An answer is never changed.
/// With nothing on the port a probe is asked, and in all other cases nothing is said of the binary.
pub proof fn an_answer_counts_only_for_its_own_binary(
    before: Option<&Listener>,
    answer: Option<MdnsSupport>,
    after: Option<&Listener>,
    adb: &str,
    resolved: &str,
    port: u16,
    r: Verdict,
)
    requires
        call_ensures(mdns_support, (before, answer, after, adb, resolved, port), r),
    ensures
        r matches Verdict::Answer(a) ==> {
            &&& answer == Some(a)
            &&& before is Some && after is Some
            &&& before->0.pid == after->0.pid
            &&& !before->0.replaced && !after->0.replaced
            &&& same_path(before->0.exe@, resolved@) && same_path(after->0.exe@, resolved@)
        },
        answer is Some && before is Some && after is Some && before->0.pid == after->0.pid
            && !before->0.replaced && !after->0.replaced && same_path(before->0.exe@, resolved@)
            && same_path(after->0.exe@, resolved@) ==> r == Verdict::Answer(answer->0),
        r is Probe <==> after is None,
{
}

/// The check is put to the very server that the probe started: on the same port, with nothing in
/// the environment that could lead elsewhere. The probe's server does not fork away, and takes its
/// port from the command line alone.
pub proof fn a_probe_asks_the_server_it_started(
    adb: &str,
    port: u16,
    server: ProbeCommand,
    check: ProbeCommand,
)
    requires
        call_ensures(probe_server_command, (adb, port), server),
        call_ensures(probe_check_command, (adb, port), check),
    ensures
        server.program@ == adb@ && check.program@ == adb@,
        texts(server.args@).contains("tcp:"@ + decimal(port as nat)),
        texts(server.args@).contains("nodaemon"@),
        server.env_set@.len() == 0,
        texts(server.env_clear@).contains("ADB_SERVER_SOCKET"@),
        texts(server.env_clear@).contains("ANDROID_ADB_SERVER_PORT"@),
        texts(check.args@) == seq!["mdns"@, "check"@],
        text_pairs(check.env_set@).contains(
            ("ADB_SERVER_SOCKET"@, "tcp:127.0.0.1:"@ + decimal(port as nat)),
        ),
        text_pairs(check.env_set@).len() == 1,
        texts(check.env_clear@).contains("ANDROID_ADB_SERVER_PORT"@),
{
    assert(texts(server.args@)[1] == "tcp:"@ + decimal(port as nat));
    assert(texts(server.args@)[2] == "nodaemon"@);
    assert(texts(server.env_clear@)[0] == "ADB_SERVER_SOCKET"@);
    assert(texts(server.env_clear@)[1] == "ANDROID_ADB_SERVER_PORT"@);
    assert(text_pairs(check.env_set@)[0] == (
        "ADB_SERVER_SOCKET"@,
        "tcp:127.0.0.1:"@ + decimal(port as nat),
    ));
    assert(texts(check.env_clear@)[0] == "ANDROID_ADB_SERVER_PORT"@);
}

/// One line of a list that is neither blank nor the heading is one device, read from its words,
/// whatever white space stands between them.
pub proof fn a_line_is_read_by_its_words(l: Seq<char>, text: &str, r: Vec<Device>)
    requires
        is_line(l),
        !blank(l),
        !starts_with(l, "List of devices"@),
        l.last() != '\r',
        text@ == l || text@ == l.push('\n'),
        call_ensures(parse_devices, (text,), r),
    ensures
        r@.len() == 1,
        reads_row(words(l), r@[0]@),
        words(l).len() > 0,
{
    crate::laws::text::a_line_ends_at_its_break(l, Seq::empty());
    assert(l.push('\n') + Seq::<char>::empty() =~= l.push('\n'));
    assert(seq![l] + lines(Seq::<char>::empty()) =~= seq![l]);
    assert(lines(text@) == seq![l]);
    let gap = crate::laws::text::lemma_trimmed_end(l);
    let t = trim_end(l);
    crate::laws::text::white_space_at_the_end_is_no_word(t, gap);
    let w = words(l);
    assert(words(t) == w);
    nothing_else_is_a_prefix(l, "List of devices"@);
    nothing_else_is_a_prefix(t, "List of devices"@);
    if starts_with(t, "List of devices"@) {
        assert(l.take("List of devices"@.len() as int) =~= t.take("List of devices"@.len() as int));
    }
    lemma_some_word(l);
    lemma_reads_field(w, "model:"@);
    lemma_reads_field(w, "product:"@);
    lemma_reads_field(w, "device:"@);
    if t.len() == 0 {
        assert(l =~= gap);
    }
    assert(device_row(l) is Some);
    assert(seq![l].drop_last() =~= Seq::<Seq<char>>::empty());
    assert(device_rows(seq![l].drop_last()).len() == 0);
    assert(device_rows(seq![l]) =~= seq![device_row(l)->0]);
    assert(devices(r@).len() == r@.len());
    assert(devices(r@)[0] == r@[0]@);
}

proof fn lemma_some_word(l: Seq<char>)
    requires
        !blank(l),
    ensures
        words(l).len() > 0,
{
    let i = choose|i: int| 0 <= i < l.len() && !is_space(#[trigger] l[i]);
    let a = scan(l, 0, Class::NotSpace);
    lemma_scan(l, 0, Class::NotSpace);
    if a > i {
        assert(!Class::NotSpace.has(l[i]));
    }
    lemma_scan(l, a, Class::Space);
    assert(Class::NotSpace.has(l[a]));
}

/// A running image is the candidate exactly where both lead to one place.
pub proof fn one_binary_is_one_place(
    running: Option<&str>,
    p: &str,
    candidate: &str,
    agree: bool,
    r: bool,
)
    requires
        running matches Some(q) ==> p@ == q@,
        call_ensures(crate::path::paths_agree, (p, candidate), agree),
        call_ensures(same_binary, (running, candidate), r),
    ensures
        r <==> running is Some && agree,
{
}

/// A listener is known only where both its process and its image are, and it is what they say.
pub proof fn a_listener_is_a_process_and_an_image(
    ss: &str,
    link: Option<&str>,
    path: &str,
    pid: Option<u32>,
    exe: (String, bool),
    r: Option<Listener>,
)
    requires
        call_ensures(parse_ss_pid, (ss,), pid),
        link matches Some(l) ==> path@ == l@,
        call_ensures(exe_of, (path,), exe),
        call_ensures(listener, (ss, link), r),
    ensures
        r is Some <==> pid is Some && link is Some,
        r matches Some(l) ==> pid == Some(l.pid) && l.exe@ == exe.0@ && l.replaced == exe.1,
{
}

/// The candidates are those for what the environment says under four names: `ADB`,
/// `ANDROID_SDK_ROOT`, `ANDROID_HOME` and `PATH`.
pub proof fn four_variables_name_the_candidates<F: Fn(&str) -> Option<String>>(
    env: &F,
    home: &str,
    value: spec_fn(Seq<char>) -> Option<Seq<char>>,
    r: Vec<String>,
)
    requires
        forall|k: &str, v: Option<String>| #[trigger]
            call_ensures(env, (k,), v) ==> opt_text(v) == value(k@),
        call_ensures(crate::adb::candidate_paths, (env, home), r),
    ensures
        texts(r@) == crate::adb::candidates(
            value("ADB"@),
            value("ANDROID_SDK_ROOT"@),
            value("ANDROID_HOME"@),
            home@,
            value("PATH"@),
        ),
{
}

/// What is to be done about a server on the port: it is trusted only where it is the binary's own,
/// before and after; a probe is for an empty port; and anything else cannot be told.
pub proof fn when_a_server_is_trusted(
    before: Option<&Listener>,
    after: Option<&Listener>,
    adb: &str,
    r: crate::adb::GateStep,
)
    requires
        call_ensures(crate::adb::gate_step, (before, after, adb), r),
    ensures
        r is Probe <==> after is None,
        r is Trust <==> {
            &&& before is Some && after is Some
            &&& before->0.pid == after->0.pid
            &&& !before->0.replaced && !after->0.replaced
            &&& same_path(before->0.exe@, adb@) && same_path(after->0.exe@, adb@)
        },
{
}

/// Where nothing can be told, the port is named, and the process that holds it, where it is known.
pub proof fn what_is_said_where_nothing_can_be_told(
    before: Option<&Listener>,
    answer: Option<MdnsSupport>,
    after: Option<&Listener>,
    adb: &str,
    resolved: &str,
    port: u16,
    r: Verdict,
)
    requires
        call_ensures(mdns_support, (before, answer, after, adb, resolved, port), r),
    ensures
        r matches Verdict::Unknown(why) ==> {
            ||| starts_with(
                why@,
                "the adb server on port "@ + decimal(port as nat) + " did not answer"@,
            ) && answer is None
            ||| after is Some && starts_with(
                why@,
                "an adb server on port "@ + decimal(port as nat) + " (pid "@ + decimal(
                    after->0.pid as nat,
                ) + ") holds the mDNS socket and cannot be attributed to "@ + adb@,
            )
        },
{
    if let Verdict::Unknown(why) = r {
        reveal_strlit(" did not answer");
        reveal_strlit(
            " did not answer an mDNS check, and a probe cannot take the socket while it is running.\nRestart it and re-run: systemctl --user restart wadb",
        );
        reveal_strlit(")");
        reveal_strlit(" holds the mDNS socket and cannot be attributed to ");
        reveal_strlit(") holds the mDNS socket and cannot be attributed to ");
        let d = decimal(port as nat);
        if crate::adb::gate(crate::adb::opt_listener(before), crate::adb::opt_listener(after), resolved@)
            is Trust {
            let p = "the adb server on port "@ + d + " did not answer"@;
            assert(why@.subrange(0, p.len() as int) =~= p);
        } else {
            assert(after is Some);
            let p = "an adb server on port "@ + d + " (pid "@ + decimal(after->0.pid as nat)
                + ") holds the mDNS socket and cannot be attributed to "@ + adb@;
            assert(why@.subrange(0, p.len() as int) =~= p);
        }
    }
}

} // verus!
