//! What a pairing says, shows and dials.

use crate::adb::text_pairs;
use crate::daemon::endpoints;
use crate::discovery::{first_label, Found};
use crate::laws::lists::{is_pick, lemma_filter_picks, lemma_same_pick};
use crate::laws::text::{
    a_search_gives_the_first, a_split_is_at_the_first, is_word, prefixes_and_suffixes,
};
use crate::net::{address_text, IpAddr};
use crate::num::decimal;
use crate::pairing::{
    alphabet, bare_guid, connect, connect_text, endpoint, in_alphabet, is_valid_qr_text, pair,
    pair_argv, paired_phone, parse_connect_output, read_pair_text, token, token_of, trim_marks_end,
    trim_marks_start, usable_addresses, Attempts, PairOutcome, Payload, PayloadView, Run,
};
use crate::text::{
    contains, find_map, is_space, lemma_find, lemma_scan_is, matches_at, opt_text, split_once,
    starts_with, strip_prefix, strip_suffix, texts, trim, trim_start, words, Class,
};
use vstd::prelude::*;

verus! {

// ---------------------------------------------------------------------------
// The credential
// ---------------------------------------------------------------------------

/// A letter, a digit, a dash or an underscore.
pub open spec fn is_token_char(c: char) -> bool {
    ('A' <= c <= 'Z') || ('a' <= c <= 'z') || ('0' <= c <= '9') || c == '-' || c == '_'
}

proof fn lemma_alphabet_is()
    ensures
        alphabet().len() == 64,
        forall|i: int| 0 <= i < 64 ==> is_token_char(#[trigger] alphabet()[i]),
        forall|c: char| is_token_char(c) ==> #[trigger] alphabet().contains(c),
        forall|i: int, j: int|
            0 <= i < 64 && 0 <= j < 64 && #[trigger] alphabet()[i] == #[trigger] alphabet()[j] ==> i
                == j,
{
    reveal_strlit("ABCDEFGHIJKLMNOPQRSTUVWXYZabcdefghijklmnopqrstuvwxyz0123456789-_");
    let a = alphabet();
    assert forall|c: char| is_token_char(c) implies #[trigger] a.contains(c) by {
        if 'A' <= c <= 'Z' {
            assert(a[c as int - 65] == c);
        } else if 'a' <= c <= 'z' {
            assert(a[c as int - 97 + 26] == c);
        } else if '0' <= c <= '9' {
            assert(a[c as int - 48 + 52] == c);
        } else if c == '-' {
            assert(a[62] == c);
        } else {
            assert(a[63] == c);
        }
    }
}

/// A token has a character for each byte, all of them harmless in a code. Two bytes give the same
/// character only where they agree in their six low bits, so that nothing of those is lost.
pub proof fn a_token_keeps_six_bits_of_each_byte(raw: &[u8], r: String)
    requires
        call_ensures(token_of, (raw,), r),
    ensures
        r@.len() == raw@.len(),
        forall|i: int| 0 <= i < r@.len() ==> is_token_char(#[trigger] r@[i]),
        forall|i: int, j: int|
            0 <= i < r@.len() && 0 <= j < r@.len() ==> (#[trigger] r@[i] == #[trigger] r@[j]
                <==> raw@[i] % 64 == raw@[j] % 64),
{
    lemma_alphabet_is();
    assert forall|i: int| 0 <= i < r@.len() implies is_token_char(#[trigger] r@[i]) by {
        assert(r@[i] == alphabet()[raw@[i] as int % 64]);
    }
    assert forall|i: int, j: int| 0 <= i < r@.len() && 0 <= j < r@.len() implies (#[trigger] r@[i]
        == #[trigger] r@[j] <==> raw@[i] % 64 == raw@[j] % 64) by {
        assert(r@[i] == alphabet()[raw@[i] as int % 64]);
        assert(r@[j] == alphabet()[raw@[j] as int % 64]);
    }
}

/// Made of harmless characters alone.
pub open spec fn is_token(s: Seq<char>) -> bool {
    forall|i: int| 0 <= i < s.len() ==> is_token_char(#[trigger] s[i])
}

proof fn lemma_in_alphabet(s: Seq<char>)
    ensures
        in_alphabet(s) <==> is_token(s),
{
    lemma_alphabet_is();
    if in_alphabet(s) {
        assert forall|i: int| 0 <= i < s.len() implies is_token_char(#[trigger] s[i]) by {
            assert(alphabet().contains(s[i]));
            let k = choose|k: int| 0 <= k < alphabet().len() && alphabet()[k] == s[i];
            assert(is_token_char(alphabet()[k]));
        }
    }
    if is_token(s) {
        assert forall|i: int| 0 <= i < s.len() implies alphabet().contains(#[trigger] s[i]) by {
            assert(is_token_char(s[i]));
        }
    }
}

/// A code is valid exactly where it is written like one: `WIFI:T:ADB;S:` and a name, `;P:` and a
/// password, `;;`. The name begins with `studio-`, the password is not empty, and both are made of
/// harmless characters.
pub proof fn a_valid_code_is_written_like_one(text: &str, r: bool)
    requires
        call_ensures(is_valid_qr_text, (text,), r),
    ensures
        r <==> exists|name: Seq<char>, password: Seq<char>|
            {
                &&& text@ == #[trigger] ("WIFI:T:ADB;S:"@ + name + ";P:"@ + password + ";;"@)
                &&& starts_with(name, "studio-"@)
                &&& password.len() > 0
                &&& is_token(name)
                &&& is_token(password)
            },
{
    let head = "WIFI:T:ADB;S:"@;
    let mid = ";P:"@;
    let end = ";;"@;
    reveal_strlit(";P:");
    reveal_strlit(";;");
    if r {
        let b = strip_prefix(text@, head)->0;
        let body = strip_suffix(b, end)->0;
        let (name, password) = split_once(body, mid)->0;
        lemma_find(body, mid, 0);
        lemma_in_alphabet(name);
        lemma_in_alphabet(password);
        let n = name.len() as int;
        assert(body.subrange(n, n + 3) == mid);
        assert(body =~= name + mid + password);
        assert(b.subrange(b.len() - 2, b.len() as int) == end);
        assert(b =~= body + end);
        assert(text@.subrange(0, head.len() as int) == head);
        assert(text@ =~= head + b);
        assert(text@ =~= head + name + mid + password + end);
    }
    if exists|name: Seq<char>, password: Seq<char>|
        {
            &&& text@ == #[trigger] (head + name + mid + password + end)
            &&& starts_with(name, "studio-"@)
            &&& password.len() > 0
            &&& is_token(name)
            &&& is_token(password)
        } {
        let (name, password) = choose|name: Seq<char>, password: Seq<char>|
            {
                &&& text@ == #[trigger] (head + name + mid + password + end)
                &&& starts_with(name, "studio-"@)
                &&& password.len() > 0
                &&& is_token(name)
                &&& is_token(password)
            };
        lemma_in_alphabet(name);
        lemma_in_alphabet(password);
        let body = name + mid + password;
        assert(text@ == head + (body + end));
        prefixes_and_suffixes(head, body + end);
        prefixes_and_suffixes(end, body);
        assert forall|j: int| 0 <= j < name.len() implies !#[trigger] matches_at(
            name + mid + password,
            mid,
            j,
        ) by {
            if matches_at(body, mid, j) {
                assert(body.subrange(j, j + 3)[0] == body[j]);
                assert(body[j] == name[j]);
                assert(is_token_char(name[j]));
            }
        }
        a_split_is_at_the_first(name, mid, password);
    }
}

/// What a phone scans holds the name and the password, both whole: two payloads give the same text
/// only where they are the same.
pub proof fn a_code_holds_the_whole_credential(p: &Payload, q: &Payload, a: String, b: String)
    requires
        p@.wf(),
        q@.wf(),
        call_ensures(Payload::qr_text, (p,), a),
        call_ensures(Payload::qr_text, (q,), b),
    ensures
        a@ == "WIFI:T:ADB;S:"@ + p@.instance + ";P:"@ + p@.password + ";;"@,
        a@ == b@ ==> p@.instance == q@.instance && p@.password == q@.password,
{
    if a@ == b@ {
        lemma_code_parts(p@);
        lemma_code_parts(q@);
    }
}

proof fn lemma_code_parts(p: PayloadView)
    requires
        p.wf(),
    ensures
        split_once(
            strip_suffix(strip_prefix(p.qr_text(), "WIFI:T:ADB;S:"@)->0, ";;"@)->0,
            ";P:"@,
        ) == Some((p.instance, p.password)),
{
    let mid = ";P:"@;
    reveal_strlit(";P:");
    let body = p.instance + mid + p.password;
    assert(p.qr_text() == "WIFI:T:ADB;S:"@ + (body + ";;"@));
    prefixes_and_suffixes("WIFI:T:ADB;S:"@, body + ";;"@);
    prefixes_and_suffixes(";;"@, body);
    lemma_in_alphabet(p.instance);
    assert forall|j: int| 0 <= j < p.instance.len() implies !#[trigger] matches_at(
        p.instance + mid + p.password,
        mid,
        j,
    ) by {
        if matches_at(body, mid, j) {
            assert(body.subrange(j, j + 3)[0] == body[j]);
            assert(is_token_char(p.instance[j]));
        }
    }
    a_split_is_at_the_first(p.instance, mid, p.password);
}

/// Given random bytes, the name and the password are made of all of them: the name of the one lot,
/// behind `studio-`, and the password of the other.
pub proof fn a_payload_is_made_of_its_bytes(
    instance: &[u8],
    password: &[u8],
    p: Payload,
    name: String,
    secret: String,
)
    requires
        call_ensures(Payload::from_bytes, (instance, password), p),
        call_ensures(token_of, (instance,), name),
        call_ensures(token_of, (password,), secret),
    ensures
        p@.instance == "studio-"@ + name@,
        p@.password == secret@,
{
}

/// The phone that scanned the code is the one whose service is named after it, and no other is.
pub proof fn only_its_own_service_answers_a_code(
    p: &Payload,
    name: Seq<char>,
    rest: Seq<char>,
    service: &str,
    r: bool,
)
    requires
        call_ensures(Payload::matches_instance, (p, service), r),
        !name.contains('.'),
        service@ == name || service@ == name + "._adb-tls-pairing"@ + rest,
    ensures
        r <==> name == p@.instance,
{
    let mark = "._adb-tls-pairing"@;
    reveal_strlit("._adb-tls-pairing");
    let s = service@;
    assert forall|j: int| 0 <= j < name.len() implies !#[trigger] matches_at(s, mark, j) by {
        if matches_at(s, mark, j) {
            assert(s.subrange(j, j + mark.len() as int)[0] == s[j]);
            assert(s[j] == name[j]);
            assert(name.contains('.'));
        }
    }
    if s == name + mark + rest {
        a_split_is_at_the_first(name, mark, rest);
    } else {
        lemma_find(s, mark, 0);
        assert(split_once(s, mark) is None);
    }
}

// ---------------------------------------------------------------------------
// Addresses
// ---------------------------------------------------------------------------

/// An IPv6 address that can be dialed: neither `::1` nor under `fe80::/10`.
pub open spec fn can_be_dialed(a: IpAddr) -> bool {
    match a {
        IpAddr::V4(_) => true,
        IpAddr::V6(s) => {
            &&& !(s@[0] == 0 && s@[1] == 0 && s@[2] == 0 && s@[3] == 0 && s@[4] == 0 && s@[5] == 0
                && s@[6] == 0 && s@[7] == 1)
            &&& !(0xfe80 <= s@[0] <= 0xfebf)
        },
    }
}

/// Every address that can be dialed is tried as often as it is advertised, and no other is: first
/// all of IPv4, then all of IPv6, each in the order of the advert.
pub proof fn every_address_that_can_be_dialed_is_kept(addrs: &[IpAddr], r: Vec<IpAddr>, n: int)
    requires
        call_ensures(usable_addresses, (addrs,), r),
        0 <= n <= r@.len(),
        forall|i: int| 0 <= i < n ==> #[trigger] r@[i] is V4,
        n < r@.len() ==> r@[n] is V6,
    ensures
        is_pick(addrs@, |a: IpAddr| a is V4, r@.take(n)),
        is_pick(addrs@, |a: IpAddr| a is V6 && can_be_dialed(a), r@.skip(n)),
{
    let four = |a: IpAddr| a is V4;
    let six = |a: IpAddr| a.is_dialable_v6();
    let good = |a: IpAddr| a is V6 && can_be_dialed(a);
    let first = addrs@.filter(four);
    let second = addrs@.filter(six);
    lemma_filter_picks(addrs@, four);
    lemma_filter_picks(addrs@, six);
    assert(r@ == first + second);
    assert forall|i: int| 0 <= i < first.len() implies #[trigger] first[i] is V4 by {
        addrs@.lemma_filter_pred(four, i);
        assert(four(first[i]));
    }
    assert forall|i: int| 0 <= i < second.len() implies #[trigger] second[i] is V6 by {
        addrs@.lemma_filter_pred(six, i);
        assert(six(second[i]));
    }
    if n < first.len() {
        assert(r@[n] == first[n]);
    }
    if n > first.len() {
        assert(r@[first.len() as int] == second[0]);
    }
    assert(n == first.len());
    assert(r@.take(n) == first);
    assert(r@.skip(n) == second);
    assert forall|i: int| 0 <= i < addrs@.len() implies (six(#[trigger] addrs@[i]) <==> good(
        addrs@[i],
    )) by {
        lemma_dialable(addrs@[i]);
    }
    lemma_same_pick(addrs@, six, good, second);
}

proof fn lemma_dialable(a: IpAddr)
    ensures
        a.is_dialable_v6() <==> a is V6 && can_be_dialed(a),
{
    if let IpAddr::V6(s) = a {
        let one = seq![0u16, 0u16, 0u16, 0u16, 0u16, 0u16, 0u16, 1u16];
        if s@[0] == 0 && s@[1] == 0 && s@[2] == 0 && s@[3] == 0 && s@[4] == 0 && s@[5] == 0 && s@[6]
            == 0 && s@[7] == 1 {
            assert(s@ == one);
        }
    }
}

/// However many are IPv4, the addresses that can be dialed come out as IPv4 and then IPv6: there is
/// such a place between them.
pub proof fn old_addresses_come_first(addrs: &[IpAddr], r: Vec<IpAddr>) -> (n: int)
    requires
        call_ensures(usable_addresses, (addrs,), r),
    ensures
        0 <= n <= r@.len(),
        forall|i: int| 0 <= i < n ==> #[trigger] r@[i] is V4,
        forall|i: int| n <= i < r@.len() ==> #[trigger] r@[i] is V6,
{
    let four = |a: IpAddr| a is V4;
    let six = |a: IpAddr| a.is_dialable_v6();
    let first = addrs@.filter(four);
    let second = addrs@.filter(six);
    assert forall|i: int| 0 <= i < first.len() implies #[trigger] r@[i] is V4 by {
        addrs@.lemma_filter_pred(four, i);
        assert(r@[i] == first[i]);
        assert(four(first[i]));
    }
    assert forall|i: int| first.len() <= i < r@.len() implies #[trigger] r@[i] is V6 by {
        addrs@.lemma_filter_pred(six, i - first.len());
        assert(r@[i] == second[i - first.len()]);
        assert(six(second[i - first.len()]));
    }
    first.len() as int
}

/// An endpoint is the address and the port with a colon between them; an IPv6 address, which has
/// colons of its own, stands in brackets.
pub proof fn an_endpoint_is_an_address_and_a_port(addr: IpAddr, port: u16, r: String)
    requires
        call_ensures(endpoint, (addr, port), r),
    ensures
        addr is V4 ==> r@ == address_text(addr).push(':') + decimal(port as nat),
        addr is V6 ==> r@ == seq!['['] + address_text(addr) + seq![']', ':'] + decimal(port as nat),
{
    reveal_strlit(":");
    reveal_strlit("[");
    reveal_strlit("]:");
    assert(address_text(addr) + ":"@ == address_text(addr).push(':'));
    assert("["@ == seq!['[']);
    assert("]:"@ == seq![']', ':']);
}

/// The endpoints that are tried are those of the addresses that can be dialed, each of them, in the
/// same order, all with the port that was advertised. With none of them, the reason is the one that
/// was given.
pub proof fn an_endpoint_for_every_address(
    f: &Found,
    addrs: &[IpAddr],
    r: Vec<IpAddr>,
    none: &str,
    a: Attempts,
)
    requires
        addrs@ == f.addresses@,
        call_ensures(usable_addresses, (addrs,), r),
        call_ensures(Attempts::over, (f, none), a),
    ensures
        a@.left.len() == r@.len(),
        forall|i: int|
            0 <= i < r@.len() ==> #[trigger] a@.left[i] == crate::pairing::endpoint_text(
                r@[i],
                f.port,
            ),
        a@.why == none@,
{
}

/// Attempts go through what is left one by one, and end with why the last of them failed.
pub proof fn attempts_go_through_what_is_left(
    a: &mut Attempts,
    failed: Option<String>,
    r: Result<String, String>,
)
    requires
        call_ensures(Attempts::attempt, (a, failed), r),
    ensures
        r is Ok <==> old(a)@.left.len() > 0,
        r matches Ok(ep) ==> old(a)@.left == seq![ep@] + final(a)@.left,
        r matches Err(why) ==> why@ == (match failed {
            Some(w) => w@,
            None => old(a)@.why,
        }),
        failed matches Some(w) ==> final(a)@.why == w@,
        failed is None ==> final(a)@.why == old(a)@.why,
{
    if old(a)@.left.len() > 0 {
        let l = old(a)@.left;
        assert(seq![l[0]] + l.skip(1) == l);
    }
}

// ---------------------------------------------------------------------------
// What adb said
// ---------------------------------------------------------------------------

/// What becomes of a pairing is read from what adb said. Only the words `successfully paired` make
/// it one; a code is wrong, or the phone out of reach, only where adb says so, and whatever else it
/// says is passed on.
pub proof fn a_pairing_is_what_adb_says_it_is(
    text: &str,
    low: &str,
    success_exit: bool,
    r: PairOutcome,
)
    requires
        call_ensures(read_pair_text, (text, low, success_exit), r),
    ensures
        ({
            let paired = contains(low@, "successfully paired"@);
            let wrong = contains(low@, "wrong"@) || contains(low@, "incorrect"@) || contains(
                low@,
                "failed to authenticate"@,
            );
            let unreachable = contains(low@, "connection refused"@) || contains(
                low@,
                "protocol fault"@,
            ) || contains(low@, "cannot connect"@) || contains(low@, "no pairing code"@);
            &&& r is Paired <==> paired
            &&& r is WrongCode <==> !paired && wrong
            &&& r is Unreachable <==> !paired && !wrong && unreachable
            &&& r is Other <==> !paired && !wrong && !unreachable
            &&& r matches PairOutcome::Other(said) ==> said@ == trim(text@) || (success_exit && trim(
                low@,
            ).len() == 0)
        }),
{
}

/// The phone's name is what stands behind `guid=`, up to the bracket.
pub proof fn a_reported_name_is_read_back(
    a: Seq<char>,
    guid: Seq<char>,
    b: Seq<char>,
    text: &str,
    low: &str,
    success_exit: bool,
    r: PairOutcome,
)
    requires
        call_ensures(read_pair_text, (text, low, success_exit), r),
        contains(low@, "successfully paired"@),
        is_word(guid),
        !guid.contains(']'),
        forall|j: int| 0 <= j < a.len() ==> !#[trigger] matches_at(text@, "guid="@, j),
        text@ == a + "guid="@ + (guid.push(']') + b),
    ensures
        r matches PairOutcome::Paired { guid: g } && opt_text(g) == Some(guid),
{
    let rest = guid.push(']') + b;
    a_split_is_at_the_first(a, "guid="@, rest);
    assert(rest[0] == guid[0]);
    lemma_scan_is(rest, 0, Class::NotSpace, 0);
    assert(rest.skip(0) == rest);
    assert(trim_start(rest) == rest);
    let n = guid.len() as int;
    assert(rest[n] == ']');
    assert forall|j: int| 0 <= j < n implies !Class::SpaceOr(']').has(#[trigger] rest[j]) by {
        assert(rest[j] == guid[j]);
        if guid[j] == ']' {
            assert(guid.contains(']'));
        }
    }
    lemma_scan_is(rest, 0, Class::SpaceOr(']'), n);
    assert(rest.take(n) == guid);
}

/// Without `guid=`, the phone's name is the first word that looks like one, without the marks
/// around it. Where no word does, none is known.
pub proof fn a_name_among_the_words(
    text: &str,
    low: &str,
    success_exit: bool,
    r: PairOutcome,
)
    requires
        call_ensures(read_pair_text, (text, low, success_exit), r),
        contains(low@, "successfully paired"@),
        !contains(text@, "guid="@),
    ensures
        r matches PairOutcome::Paired { guid } && (match opt_text(guid) {
            Some(g) => exists|i: int|
                {
                    &&& 0 <= i < words(text@).len()
                    &&& starts_with(#[trigger] words(text@)[i], "adb-"@)
                    &&& g == trim_marks_end(trim_marks_start(words(text@)[i]))
                    &&& forall|j: int|
                        0 <= j < i ==> !starts_with(#[trigger] words(text@)[j], "adb-"@)
                },
            None => forall|i: int|
                0 <= i < words(text@).len() ==> !starts_with(#[trigger] words(text@)[i], "adb-"@),
        }),
{
    lemma_find(text@, "guid="@, 0);
    let f = |w: Seq<char>| bare_guid(w);
    let ws = words(text@);
    a_search_gives_the_first(ws, f);
    match find_map(ws, f) {
        Some(g) => {
            let i = choose|i: int|
                {
                    &&& 0 <= i < ws.len()
                    &&& #[trigger] f(ws[i]) == Some(g)
                    &&& forall|j: int| 0 <= j < i ==> f(#[trigger] ws[j]) is None
                };
            assert(starts_with(ws[i], "adb-"@));
            assert forall|j: int| 0 <= j < i implies !starts_with(#[trigger] ws[j], "adb-"@) by {
                assert(f(ws[j]) is None);
            }
            lemma_a_name_is_left(ws[i]);
        },
        None => {
            assert forall|i: int| 0 <= i < ws.len() implies !starts_with(
                #[trigger] ws[i],
                "adb-"@,
            ) by {
                assert(f(ws[i]) is None);
            }
        },
    }
}

proof fn lemma_a_name_is_left(w: Seq<char>)
    requires
        starts_with(w, "adb-"@),
    ensures
        trim_marks_start(w) == w,
        trim_marks_end(w).len() >= 4,
        starts_with(trim_marks_end(w), "adb-"@),
    decreases w.len(),
{
    reveal_strlit("adb-");
    let p = "adb-"@;
    assert(w.subrange(0, 4) == p);
    assert(w[0] == w.subrange(0, 4)[0]);
    assert(w[3] == w.subrange(0, 4)[3]);
    if crate::pairing::is_mark(w.last()) {
        assert(w.len() > 4);
        assert(w.drop_last().subrange(0, 4) == p);
        lemma_a_name_is_left(w.drop_last());
    }
}

/// The marks around a name are brackets, dots and commas, and taking them off takes off nothing
/// else.
pub proof fn marks_are_taken_off(a: Seq<char>, core: Seq<char>, b: Seq<char>)
    requires
        forall|i: int| 0 <= i < a.len() ==> "[].,"@.contains(#[trigger] a[i]),
        forall|i: int| 0 <= i < b.len() ==> "[].,"@.contains(#[trigger] b[i]),
        core.len() > 0,
        !"[].,"@.contains(core[0]),
        !"[].,"@.contains(core.last()),
    ensures
        trim_marks_end(trim_marks_start(a + core + b)) == core,
    decreases a.len() + b.len(),
{
    reveal_strlit("[].,");
    let m = "[].,"@;
    assert(m[0] == '[' && m[1] == ']' && m[2] == '.' && m[3] == ',');
    let s = a + core + b;
    if a.len() > 0 {
        assert(s[0] == a[0]);
        assert(m.contains(a[0]));
        let rest = a.skip(1);
        assert forall|i: int| 0 <= i < rest.len() implies m.contains(#[trigger] rest[i]) by {
            assert(rest[i] == a[i + 1]);
        }
        marks_are_taken_off(rest, core, b);
        assert(s.skip(1) == rest + core + b);
    } else {
        assert(s[0] == core[0]);
        assert(trim_marks_start(s) == s);
        if b.len() > 0 {
            assert(s.last() == b.last());
            assert(m.contains(b[b.len() - 1]));
            let rest = b.drop_last();
            assert forall|i: int| 0 <= i < rest.len() implies m.contains(#[trigger] rest[i]) by {
                assert(rest[i] == b[i]);
            }
            marks_are_taken_off(a, core, rest);
            assert(s.drop_last() == a + core + rest);
            assert((a + core + rest)[0] == core[0]);
            assert(trim_marks_start(a + core + rest) == a + core + rest);
        } else {
            assert(s == core);
        }
    }
}

/// A connect worked exactly where the run succeeded and adb says `connected to`; either way, what
/// it said is what is passed on.
pub proof fn a_connect_is_what_adb_says_it_is(text: &str, success: bool, r: Result<String, String>)
    requires
        call_ensures(parse_connect_output, (text, success), r),
    ensures
        r is Ok <==> success && contains(text@, "connected to"@),
        r matches Ok(line) ==> line@ == trim(text@),
        r matches Err(why) ==> why@ == trim(text@),
{
}

/// The pairing code is given on standard input and stands nowhere in the command: not in its
/// arguments, and not in its environment.
pub proof fn the_code_is_not_in_the_command(
    adb: &str,
    port: u16,
    endpoint: &str,
    code: &str,
    other: &str,
    r: Run,
    s: Run,
)
    requires
        call_ensures(pair, (adb, port, endpoint, code), r),
        call_ensures(pair, (adb, port, endpoint, other), s),
    ensures
        opt_text(r.stdin) == Some(code@.push('\n')),
        r.command.program@ == s.command.program@ && r.command.program@ == adb@,
        texts(r.command.args@) == texts(s.command.args@),
        texts(r.command.args@).len() == 2,
        texts(r.command.args@)[0] == "pair"@,
        texts(r.command.args@)[1] == endpoint@,
        text_pairs(r.command.env_set@) == text_pairs(s.command.env_set@),
        texts(r.command.env_clear@) == texts(s.command.env_clear@),
        r.seconds == s.seconds,
{
    reveal_strlit("\n");
    assert(code@ + "\n"@ == code@.push('\n'));
}

/// Pairing and connecting talk to the same server: the one on the given port, whatever the
/// environment says.
pub proof fn both_commands_talk_to_one_server(
    adb: &str,
    port: u16,
    endpoint: &str,
    code: &str,
    p: Run,
    c: Run,
)
    requires
        call_ensures(pair, (adb, port, endpoint, code), p),
        call_ensures(connect, (adb, port, endpoint), c),
    ensures
        text_pairs(p.command.env_set@).contains(
            ("ANDROID_ADB_SERVER_PORT"@, decimal(port as nat)),
        ),
        text_pairs(c.command.env_set@) == text_pairs(p.command.env_set@),
        texts(p.command.env_clear@).contains("ADB_SERVER_SOCKET"@),
        texts(c.command.env_clear@) == texts(p.command.env_clear@),
        texts(c.command.args@).len() == 2,
        texts(c.command.args@)[0] == "connect"@,
        texts(c.command.args@)[1] == endpoint@,
        c.command.program@ == adb@,
        c.stdin is None,
        c.seconds > 0 && p.seconds > 0,
{
    assert(text_pairs(p.command.env_set@)[0] == ("ANDROID_ADB_SERVER_PORT"@, decimal(port as nat)));
    assert(texts(p.command.env_clear@)[0] == "ADB_SERVER_SOCKET"@);
}

/// The phone that was just paired is found by its name, where one is known, and by one of its
/// addresses otherwise.
pub proof fn the_paired_phone_is_found_again(
    found: &Found,
    guid: Option<&str>,
    host: &str,
    r: bool,
)
    requires
        call_ensures(paired_phone, (found, guid, host), r),
    ensures
        guid matches Some(g) ==> (r <==> first_label(found.fullname@) == g@),
        guid is None ==> (r <==> exists|i: int|
            0 <= i < found.addresses@.len() && address_text(#[trigger] found.addresses@[i])
                == host@),
{
    if guid is None {
        if r {
            let i = choose|i: int|
                0 <= i < found@.addresses.len() && address_text(#[trigger] found@.addresses[i])
                    == host@;
            assert(address_text(found.addresses@[i]) == host@);
        }
        if exists|i: int|
            0 <= i < found.addresses@.len() && address_text(#[trigger] found.addresses@[i])
                == host@ {
            let i = choose|i: int|
                0 <= i < found.addresses@.len() && address_text(#[trigger] found.addresses@[i])
                    == host@;
            assert(address_text(found@.addresses[i]) == host@);
        }
    }
}

/// What is made of drawn bytes and of drawn tokens is passed on as it is, and so is a failure.
pub proof fn what_is_drawn_is_used(
    name: String,
    password: Result<String, crate::pairing::PayloadError>,
    r: Result<Payload, crate::pairing::PayloadError>,
)
    requires
        call_ensures(Payload::from_tokens, (name, password), r),
    ensures
        r is Ok <==> password is Ok,
        r matches Ok(p) ==> p@.instance == "studio-"@ + name@ && p@.password == password->Ok_0@,
{
}

/// A payload gives back its name and its password.
pub proof fn a_payload_gives_back_its_parts(
    instance: &[u8],
    password: &[u8],
    p: Payload,
    name: String,
    secret: String,
    i: &str,
    w: &str,
)
    requires
        call_ensures(Payload::from_bytes, (instance, password), p),
        call_ensures(token_of, (instance,), name),
        call_ensures(token_of, (password,), secret),
        call_ensures(Payload::instance, (&p,), i),
        call_ensures(Payload::password, (&p,), w),
    ensures
        i@ == "studio-"@ + name@,
        w@ == secret@,
{
}

/// What a connect said is what it printed on both ways, without the white space around it.
pub proof fn both_outputs_are_read(stdout: &str, stderr: &str, r: String)
    requires
        call_ensures(connect_text, (stdout, stderr), r),
    ensures
        r@ == trim(stdout@) + trim(stderr@),
        trim(stdout@).len() == 0 ==> r@ == trim(stderr@),
{
    assert(Seq::<char>::empty() + trim(stderr@) =~= trim(stderr@));
    if trim(stdout@).len() == 0 {
        assert(trim(stdout@) =~= Seq::<char>::empty());
    }
}

/// What a pairing printed is read whole, on both ways.
pub proof fn both_outputs_of_a_pairing_are_read(
    stdout: &str,
    stderr: &str,
    success: bool,
    r: PairOutcome,
    text: &str,
    low: &str,
    s: PairOutcome,
)
    requires
        call_ensures(crate::pairing::parse_pair_output, (stdout, stderr, success), r),
        text@ == stdout@ + "\n"@ + stderr@,
        low@ == crate::text::lower(text@),
        call_ensures(read_pair_text, (text, low, success), s),
    ensures
        r@ == s@,
{
}

/// A pairing by hand is run with the endpoint and nothing else.
pub proof fn what_a_pairing_is_run_with(adb: &str, endpoint: &str, r: Vec<String>)
    requires
        call_ensures(pair_argv, (adb, endpoint), r),
    ensures
        r@.len() == 3,
        r@[0]@ == adb@ && r@[1]@ == "pair"@ && r@[2]@ == endpoint@,
{
    assert(texts(r@).len() == r@.len());
    assert(texts(r@)[0] == r@[0]@);
    assert(texts(r@)[1] == r@[1]@);
    assert(texts(r@)[2] == r@[2]@);
}

/// The phone's name ends at white space, too, and white space before it does not matter.
pub proof fn a_reported_name_ends_at_white_space(
    a: Seq<char>,
    gap: Seq<char>,
    guid: Seq<char>,
    b: Seq<char>,
    text: &str,
    low: &str,
    success_exit: bool,
    r: PairOutcome,
)
    requires
        call_ensures(read_pair_text, (text, low, success_exit), r),
        contains(low@, "successfully paired"@),
        is_word(guid),
        !guid.contains(']'),
        crate::laws::text::blank(gap),
        b.len() == 0 || b[0] == ']' || is_space(b[0]),
        forall|j: int| 0 <= j < a.len() ==> !#[trigger] matches_at(text@, "guid="@, j),
        text@ == a + "guid="@ + (gap + guid + b),
    ensures
        r matches PairOutcome::Paired { guid: g } && opt_text(g) == Some(guid),
{
    let rest = gap + guid + b;
    a_split_is_at_the_first(a, "guid="@, rest);
    let m = gap.len() as int;
    assert forall|j: int| 0 <= j < m implies !Class::NotSpace.has(#[trigger] rest[j]) by {
        assert(rest[j] == gap[j]);
    }
    assert(rest[m] == guid[0]);
    lemma_scan_is(rest, 0, Class::NotSpace, m);
    let t = rest.skip(m);
    assert(t =~= guid + b);
    assert(trim_start(rest) == t);
    let n = guid.len() as int;
    assert forall|j: int| 0 <= j < n implies !Class::SpaceOr(']').has(#[trigger] t[j]) by {
        assert(t[j] == guid[j]);
        if guid[j] == ']' {
            assert(guid.contains(']'));
        }
    }
    if b.len() > 0 {
        assert(t[n] == b[0]);
    }
    lemma_scan_is(t, 0, Class::SpaceOr(']'), n);
    assert(t.take(n) =~= guid);
}

/// A run that succeeds without a word is told as such; whatever else adb says is passed on whole.
pub proof fn what_is_said_of_other_words(
    text: &str,
    low: &str,
    success_exit: bool,
    r: PairOutcome,
)
    requires
        call_ensures(read_pair_text, (text, low, success_exit), r),
    ensures
        r matches PairOutcome::Other(said) ==> said@ == if success_exit && trim(low@).len() == 0 {
            "adb pair said nothing"@
        } else {
            trim(text@)
        },
{
}

/// The service that a phone advertises when it has scanned a code is the one that is browsed for.
pub proof fn the_pairing_service_is_browsed_for(p: &Payload, service: &str, r: bool)
    requires
        p@.wf(),
        service@ == p@.instance + "."@ + crate::pairing::PAIRING_SERVICE@,
        call_ensures(Payload::matches_instance, (p, service), r),
    ensures
        r,
        crate::pairing::CONNECT_SERVICE@ == "_adb-tls-connect._tcp.local."@,
{
    crate::pairing::a_payload_matches_its_own_service(p@, p@);
}

} // verus!
