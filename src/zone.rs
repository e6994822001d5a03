use vstd::prelude::*;
use crate::text::{push_str, push_decimal, string_of, decimal, digit_char, split_on, index_from};
use crate::audit::{digits_value, is_ascii_digit};

verus! {

/// Record TTL, and zone default TTL, when none is given.
pub const DEFAULT_RECORD_TTL: u32 = 3600;

/// One resource record of a zone.
#[derive(Debug, Clone)]
pub struct DnsRecord {
    pub name: String,
    pub record_type: String,
    pub value: String,
    pub ttl: Option<u32>,
}

/// A zone as published in the store.
#[derive(Debug, Clone)]
pub struct ZoneSpec {
    pub domain: String,
    pub ttl: Option<u32>,
    pub records: Vec<DnsRecord>,
}

pub open spec fn ttl_or_default(t: Option<u32>) -> nat {
    match t {
        Some(v) => v as nat,
        None => DEFAULT_RECORD_TTL as nat,
    }
}

/// One line of the zone file: `<name>\t<ttl>\t<type>\t<value>\n`.
pub open spec fn record_line(r: DnsRecord) -> Seq<char> {
    r.name@ + "\t"@ + decimal(ttl_or_default(r.ttl)) + "\t"@ + r.record_type@ + "\t"@ + r.value@
        + "\n"@
}

/// The record lines of the zone file, in the order of the records.
pub open spec fn records_text(rs: Seq<DnsRecord>) -> Seq<char>
    decreases rs.len(),
{
    if rs.len() == 0 {
        Seq::empty()
    } else {
        records_text(rs.drop_last()) + record_line(rs.last())
    }
}

/// The SOA record: serial 1, refresh 3600, retry 1800, expire 604800, minimum 86400.
pub open spec fn soa_text(domain: Seq<char>) -> Seq<char> {
    "@\tIN\tSOA\tns1."@ + domain + ". admin."@ + domain + ". (\n"@ + "\t\t1\t; Serial\n"@
        + "\t\t3600\t; Refresh\n"@ + "\t\t1800\t; Retry\n"@ + "\t\t604800\t; Expire\n"@
        + "\t\t86400\t; Minimum TTL\n"@ + ")\n\n"@
}

/// The text of the zone file of `z`.
pub open spec fn zone_file_text(z: ZoneSpec) -> Seq<char> {
    "$ORIGIN "@ + z.domain@ + ".\n"@ + "$TTL "@ + decimal(ttl_or_default(z.ttl)) + "\n\n"@
        + soa_text(z.domain@) + records_text(z.records@)
}

fn ttl_value(t: Option<u32>) -> (r: u64)
    ensures
        r as nat == ttl_or_default(t),
{
    match t {
        Some(v) => v as u64,
        None => DEFAULT_RECORD_TTL as u64,
    }
}

/// Appends the line of one record.
pub fn push_record_line(buf: &mut Vec<char>, r: &DnsRecord)
    ensures
        final(buf)@ == old(buf)@ + record_line(*r),
{
    push_str(buf, r.name.as_str());
    push_str(buf, "\t");
    push_decimal(buf, ttl_value(r.ttl));
    push_str(buf, "\t");
    push_str(buf, r.record_type.as_str());
    push_str(buf, "\t");
    push_str(buf, r.value.as_str());
    push_str(buf, "\n");
    proof {
        assert(final(buf)@ =~= old(buf)@ + record_line(*r));
    }
}

/// Writes the zone file of a zone: origin, default TTL, SOA, then one line per record.
pub fn generate_zone_file(z: &ZoneSpec) -> (r: String)
    ensures
        r@ == zone_file_text(*z),
{
    let mut buf: Vec<char> = Vec::new();
    push_str(&mut buf, "$ORIGIN ");
    push_str(&mut buf, z.domain.as_str());
    push_str(&mut buf, ".\n");
    push_str(&mut buf, "$TTL ");
    push_decimal(&mut buf, ttl_value(z.ttl));
    push_str(&mut buf, "\n\n");
    push_str(&mut buf, "@\tIN\tSOA\tns1.");
    push_str(&mut buf, z.domain.as_str());
    push_str(&mut buf, ". admin.");
    push_str(&mut buf, z.domain.as_str());
    push_str(&mut buf, ". (\n");
    push_str(&mut buf, "\t\t1\t; Serial\n");
    push_str(&mut buf, "\t\t3600\t; Refresh\n");
    push_str(&mut buf, "\t\t1800\t; Retry\n");
    push_str(&mut buf, "\t\t604800\t; Expire\n");
    push_str(&mut buf, "\t\t86400\t; Minimum TTL\n");
    push_str(&mut buf, ")\n\n");
    let ghost head = buf@;
    proof {
        assert(head =~= "$ORIGIN "@ + z.domain@ + ".\n"@ + "$TTL "@ + decimal(ttl_or_default(z.ttl))
            + "\n\n"@ + soa_text(z.domain@));
    }
    let mut i: usize = 0;
    while i < z.records.len()
        invariant
            i <= z.records@.len(),
            buf@ == head + records_text(z.records@.subrange(0, i as int)),
        decreases z.records@.len() - i,
    {
        push_record_line(&mut buf, &z.records[i]);
        i = i + 1;
        proof {
            let s = z.records@.subrange(0, i as int);
            assert(s.drop_last() =~= z.records@.subrange(0, i - 1));
            assert(buf@ =~= head + records_text(s));
        }
    }
    proof {
        assert(z.records@.subrange(0, i as int) =~= z.records@);
    }
    string_of(&buf)
}

/// Whether a field holds no tab and no newline.
pub open spec fn plain_field(s: Seq<char>) -> bool {
    forall|k: int| 0 <= k < s.len() ==> s[k] != '\t' && s[k] != '\n'
}

/// Whether every character is a decimal digit.
pub open spec fn all_digits(s: Seq<char>) -> bool {
    forall|k: int| 0 <= k < s.len() ==> is_ascii_digit(s[k])
}

/// The fields of a record line, without its newline: name, TTL, type, value.
pub open spec fn parse_record_line(l: Seq<char>) -> Option<(Seq<char>, nat, Seq<char>, Seq<char>)> {
    let fs = split_on(l, '\t');
    if fs.len() == 4 && fs[1].len() > 0 && all_digits(fs[1]) {
        Some((fs[0], digits_value(fs[1]), fs[2], fs[3]))
    } else {
        None
    }
}

/// What a record reads back as: name, TTL (the default when it had none), type, value.
pub open spec fn record_fields(r: DnsRecord) -> (Seq<char>, nat, Seq<char>, Seq<char>) {
    (r.name@, ttl_or_default(r.ttl), r.record_type@, r.value@)
}

/// The text lines of a zone file, each with its newline.
pub open spec fn terminated(ls: Seq<Seq<char>>) -> Seq<char>
    decreases ls.len(),
{
    if ls.len() == 0 {
        Seq::empty()
    } else {
        ls[0] + "\n"@ + terminated(ls.skip(1))
    }
}

/// The records a zone file holds: its lines after the eleven of the origin,
/// default TTL and SOA, each read as a record line.
pub open spec fn parse_zone_records(text: Seq<char>) -> Seq<Option<(Seq<char>, nat, Seq<char>, Seq<char>)>> {
    let parts = split_on(text, '\n');
    parts.subrange(11, parts.len() - 1).map_values(|l: Seq<char>| parse_record_line(l))
}

proof fn lemma_index_from_at(s: Seq<char>, c: char, i: int, k: int)
    requires
        0 <= i <= k <= s.len(),
        forall|j: int| i <= j < k ==> s[j] != c,
        k == s.len() || s[k] == c,
    ensures
        index_from(s, c, i) == k,
    decreases k - i,
{
    if i < k {
        lemma_index_from_at(s, c, i + 1, k);
    }
}

/// Splitting a piece free of `c`, then `c`, then the rest.
pub proof fn lemma_split_on_cons(a: Seq<char>, rest: Seq<char>, c: char)
    requires
        forall|k: int| 0 <= k < a.len() ==> a[k] != c,
    ensures
        split_on(a + seq![c] + rest, c) == seq![a] + split_on(rest, c),
{
    let s = a + seq![c] + rest;
    lemma_index_from_at(s, c, 0, a.len() as int);
    assert(s.subrange(0, a.len() as int) =~= a);
    assert(s.skip(a.len() + 1 as int) =~= rest);
}

/// A piece free of `c` splits into itself.
pub proof fn lemma_split_on_single(a: Seq<char>, c: char)
    requires
        forall|k: int| 0 <= k < a.len() ==> a[k] != c,
    ensures
        split_on(a, c) == seq![a],
{
    lemma_index_from_at(a, c, 0, a.len() as int);
}

proof fn lemma_digit_char(d: nat)
    requires
        d < 10,
    ensures
        is_ascii_digit(digit_char(d)),
        (digit_char(d) as u32 - '0' as u32) as nat == d,
{
    if d == 0 { assert(digit_char(d) == '0'); }
    else if d == 1 { assert(digit_char(d) == '1'); }
    else if d == 2 { assert(digit_char(d) == '2'); }
    else if d == 3 { assert(digit_char(d) == '3'); }
    else if d == 4 { assert(digit_char(d) == '4'); }
    else if d == 5 { assert(digit_char(d) == '5'); }
    else if d == 6 { assert(digit_char(d) == '6'); }
    else if d == 7 { assert(digit_char(d) == '7'); }
    else if d == 8 { assert(digit_char(d) == '8'); }
    else { assert(digit_char(d) == '9'); }
}

/// Decimal digits read back as the number.
pub proof fn lemma_decimal_round_trip(n: nat)
    ensures
        decimal(n).len() > 0,
        all_digits(decimal(n)),
        digits_value(decimal(n)) == n,
    decreases n,
{
    if n < 10 {
        lemma_digit_char(n);
        let s = decimal(n);
        assert(s.drop_last() =~= Seq::<char>::empty());
        assert(digits_value(s.drop_last()) == 0);
        assert(s.last() == digit_char(n));
    } else {
        lemma_decimal_round_trip(n / 10);
        lemma_digit_char(n % 10);
        let s = decimal(n);
        assert(s.drop_last() =~= decimal(n / 10));
        assert(s.last() == digit_char(n % 10));
        assert((n / 10) * 10 + n % 10 == n) by (nonlinear_arith);
        assert forall|k: int| 0 <= k < s.len() implies is_ascii_digit(s[k]) by {
            if k < s.len() - 1 {
                assert(s[k] == decimal(n / 10)[k]);
            }
        }
    }
}

/// A record line reads back as its record.
pub proof fn lemma_record_line_round_trip(r: DnsRecord)
    requires
        plain_field(r.name@),
        plain_field(r.record_type@),
        plain_field(r.value@),
    ensures
        parse_record_line(record_line(r).drop_last()) == Some(record_fields(r)),
{
    let d = decimal(ttl_or_default(r.ttl));
    lemma_decimal_round_trip(ttl_or_default(r.ttl));
    assert forall|k: int| 0 <= k < d.len() implies d[k] != '\t' by {
        assert(is_ascii_digit(d[k]));
    }
    reveal_strlit("\t");
    reveal_strlit("\n");
    let l = record_line(r).drop_last();
    assert(l =~= r.name@ + seq!['\t'] + (d + seq!['\t'] + (r.record_type@ + seq!['\t'] + r.value@)));
    lemma_split_on_single(r.value@, '\t');
    lemma_split_on_cons(r.record_type@, r.value@, '\t');
    lemma_split_on_cons(d, r.record_type@ + seq!['\t'] + r.value@, '\t');
    lemma_split_on_cons(r.name@, d + seq!['\t'] + (r.record_type@ + seq!['\t'] + r.value@), '\t');
    let fs = split_on(l, '\t');
    assert(fs =~= seq![r.name@, d, r.record_type@, r.value@]);
}

/// Lines free of newlines, each terminated, split back into the lines and a final empty piece.
pub proof fn lemma_split_terminated(ls: Seq<Seq<char>>)
    requires
        forall|i: int, k: int| 0 <= i < ls.len() && 0 <= k < ls[i].len() ==> ls[i][k] != '\n',
    ensures
        split_on(terminated(ls), '\n') == ls.push(Seq::<char>::empty()),
    decreases ls.len(),
{
    if ls.len() == 0 {
        lemma_split_on_single(Seq::<char>::empty(), '\n');
        assert(ls.push(Seq::<char>::empty()) =~= seq![Seq::<char>::empty()]);
    } else {
        lemma_split_terminated(ls.skip(1));
        reveal_strlit("\n");
        assert(ls[0] + "\n"@ + terminated(ls.skip(1)) =~= ls[0] + seq!['\n'] + terminated(ls.skip(1)));
        lemma_split_on_cons(ls[0], terminated(ls.skip(1)), '\n');
        assert(seq![ls[0]] + ls.skip(1).push(Seq::<char>::empty()) =~= ls.push(Seq::<char>::empty()));
    }
}

proof fn lemma_terminated_push(ls: Seq<Seq<char>>, x: Seq<char>)
    ensures
        terminated(ls.push(x)) == terminated(ls) + x + "\n"@,
    decreases ls.len(),
{
    if ls.len() == 0 {
        assert(ls.push(x).skip(1) =~= Seq::<Seq<char>>::empty());
        assert(terminated(ls.push(x).skip(1)) == Seq::<char>::empty());
        assert(terminated(ls.push(x)) =~= terminated(ls) + x + "\n"@);
    } else {
        lemma_terminated_push(ls.skip(1), x);
        assert(ls.push(x).skip(1) =~= ls.skip(1).push(x));
        assert(terminated(ls.push(x)) =~= terminated(ls) + x + "\n"@);
    }
}

proof fn lemma_terminated_concat(a: Seq<Seq<char>>, b: Seq<Seq<char>>)
    ensures
        terminated(a + b) == terminated(a) + terminated(b),
    decreases a.len(),
{
    if a.len() == 0 {
        assert(a + b =~= b);
        assert(terminated(a) + terminated(b) =~= terminated(b));
    } else {
        lemma_terminated_concat(a.skip(1), b);
        assert((a + b).skip(1) =~= a.skip(1) + b);
        assert(terminated(a + b) =~= terminated(a) + terminated(b));
    }
}

/// The record lines of a zone file, without their newlines.
pub open spec fn record_bodies(rs: Seq<DnsRecord>) -> Seq<Seq<char>> {
    rs.map_values(|r: DnsRecord| record_line(r).drop_last())
}

proof fn lemma_records_text_terminated(rs: Seq<DnsRecord>)
    ensures
        records_text(rs) == terminated(record_bodies(rs)),
    decreases rs.len(),
{
    if rs.len() > 0 {
        lemma_records_text_terminated(rs.drop_last());
        assert(record_bodies(rs) =~= record_bodies(rs.drop_last()).push(record_line(rs.last()).drop_last()));
        lemma_terminated_push(record_bodies(rs.drop_last()), record_line(rs.last()).drop_last());
        reveal_strlit("\n");
        assert(record_line(rs.last()) =~= record_line(rs.last()).drop_last() + "\n"@);
    } else {
        assert(record_bodies(rs) =~= Seq::<Seq<char>>::empty());
    }
}

/// The eleven header lines of a zone file, without their newlines.
pub open spec fn header_lines(z: ZoneSpec) -> Seq<Seq<char>> {
    seq![
        "$ORIGIN "@ + z.domain@ + "."@,
        "$TTL "@ + decimal(ttl_or_default(z.ttl)),
        Seq::<char>::empty(),
        "@\tIN\tSOA\tns1."@ + z.domain@ + ". admin."@ + z.domain@ + ". ("@,
        "\t\t1\t; Serial"@,
        "\t\t3600\t; Refresh"@,
        "\t\t1800\t; Retry"@,
        "\t\t604800\t; Expire"@,
        "\t\t86400\t; Minimum TTL"@,
        ")"@,
        Seq::<char>::empty()
    ]
}

proof fn lemma_terminated_unfold(ls: Seq<Seq<char>>, j: int)
    requires
        0 <= j < ls.len(),
    ensures
        terminated(ls.skip(j)) == ls[j] + "\n"@ + terminated(ls.skip(j + 1)),
{
    assert(ls.skip(j).skip(1) =~= ls.skip(j + 1));
    assert(ls.skip(j)[0] == ls[j]);
}

#[verifier::rlimit(50)]
proof fn lemma_header_terminated(z: ZoneSpec)
    ensures
        terminated(header_lines(z)) == "$ORIGIN "@ + z.domain@ + ".\n"@ + "$TTL "@ + decimal(ttl_or_default(z.ttl))
            + "\n\n"@ + soa_text(z.domain@),
{
    let hs = header_lines(z);
    assert(hs.skip(11) =~= Seq::<Seq<char>>::empty());
    assert(hs.skip(0) =~= hs);
    lemma_terminated_unfold(hs, 0);
    lemma_terminated_unfold(hs, 1);
    lemma_terminated_unfold(hs, 2);
    lemma_terminated_unfold(hs, 3);
    lemma_terminated_unfold(hs, 4);
    lemma_terminated_unfold(hs, 5);
    lemma_terminated_unfold(hs, 6);
    lemma_terminated_unfold(hs, 7);
    lemma_terminated_unfold(hs, 8);
    lemma_terminated_unfold(hs, 9);
    lemma_terminated_unfold(hs, 10);
    reveal_strlit("\n");
    reveal_strlit(".\n");
    reveal_strlit(".");
    reveal_strlit("\n\n");
    reveal_strlit(". (\n");
    reveal_strlit(". (");
    reveal_strlit("\t\t1\t; Serial\n");
    reveal_strlit("\t\t1\t; Serial");
    reveal_strlit("\t\t3600\t; Refresh\n");
    reveal_strlit("\t\t3600\t; Refresh");
    reveal_strlit("\t\t1800\t; Retry\n");
    reveal_strlit("\t\t1800\t; Retry");
    reveal_strlit("\t\t604800\t; Expire\n");
    reveal_strlit("\t\t604800\t; Expire");
    reveal_strlit("\t\t86400\t; Minimum TTL\n");
    reveal_strlit("\t\t86400\t; Minimum TTL");
    reveal_strlit(")\n\n");
    reveal_strlit(")");
    assert(terminated(hs) =~= "$ORIGIN "@ + z.domain@ + ".\n"@ + "$TTL "@ + decimal(ttl_or_default(z.ttl)) + "\n\n"@
        + soa_text(z.domain@));
}

/// Whether no line holds a newline.
pub open spec fn lines_plain(ls: Seq<Seq<char>>) -> bool {
    forall|i: int, k: int| 0 <= i < ls.len() && 0 <= k < ls[i].len() ==> ls[i][k] != '\n'
}

proof fn lemma_no_newline_concat(a: Seq<char>, b: Seq<char>)
    requires
        forall|k: int| 0 <= k < a.len() ==> a[k] != '\n',
        forall|k: int| 0 <= k < b.len() ==> b[k] != '\n',
    ensures
        forall|k: int| 0 <= k < (a + b).len() ==> (a + b)[k] != '\n',
{
    assert forall|k: int| 0 <= k < (a + b).len() implies (a + b)[k] != '\n' by {
        if k < a.len() {
            assert((a + b)[k] == a[k]);
        } else {
            assert((a + b)[k] == b[k - a.len()]);
        }
    }
}

#[verifier::rlimit(50)]
proof fn lemma_header_plain(z: ZoneSpec)
    requires
        forall|k: int| 0 <= k < z.domain@.len() ==> z.domain@[k] != '\n',
    ensures
        lines_plain(header_lines(z)),
{
    let hs = header_lines(z);
    let dm = z.domain@;
    let d = decimal(ttl_or_default(z.ttl));
    lemma_decimal_round_trip(ttl_or_default(z.ttl));
    assert forall|k: int| 0 <= k < d.len() implies d[k] != '\n' by {
        assert(is_ascii_digit(d[k]));
    }
    reveal_strlit("$ORIGIN ");
    reveal_strlit(".");
    reveal_strlit("$TTL ");
    reveal_strlit("@\tIN\tSOA\tns1.");
    reveal_strlit(". admin.");
    reveal_strlit(". (");
    reveal_strlit("\t\t1\t; Serial");
    reveal_strlit("\t\t3600\t; Refresh");
    reveal_strlit("\t\t1800\t; Retry");
    reveal_strlit("\t\t604800\t; Expire");
    reveal_strlit("\t\t86400\t; Minimum TTL");
    reveal_strlit(")");
    lemma_no_newline_concat("$ORIGIN "@, dm);
    lemma_no_newline_concat("$ORIGIN "@ + dm, "."@);
    lemma_no_newline_concat("$TTL "@, d);
    lemma_no_newline_concat("@\tIN\tSOA\tns1."@, dm);
    lemma_no_newline_concat("@\tIN\tSOA\tns1."@ + dm, ". admin."@);
    lemma_no_newline_concat("@\tIN\tSOA\tns1."@ + dm + ". admin."@, dm);
    lemma_no_newline_concat("@\tIN\tSOA\tns1."@ + dm + ". admin."@ + dm, ". ("@);
}

proof fn lemma_body_plain(r: DnsRecord)
    requires
        plain_field(r.name@),
        plain_field(r.record_type@),
        plain_field(r.value@),
    ensures
        forall|k: int| 0 <= k < record_line(r).drop_last().len() ==> record_line(r).drop_last()[k] != '\n',
{
    reveal_strlit("\t");
    reveal_strlit("\n");
    let dd = decimal(ttl_or_default(r.ttl));
    lemma_decimal_round_trip(ttl_or_default(r.ttl));
    assert forall|k: int| 0 <= k < dd.len() implies dd[k] != '\n' by {
        assert(is_ascii_digit(dd[k]));
    }
    let t = seq!['\t'];
    assert(record_line(r).drop_last() =~= r.name@ + t + dd + t + r.record_type@ + t + r.value@);
    lemma_no_newline_concat(r.name@, t);
    lemma_no_newline_concat(r.name@ + t, dd);
    lemma_no_newline_concat(r.name@ + t + dd, t);
    lemma_no_newline_concat(r.name@ + t + dd + t, r.record_type@);
    lemma_no_newline_concat(r.name@ + t + dd + t + r.record_type@, t);
    lemma_no_newline_concat(r.name@ + t + dd + t + r.record_type@ + t, r.value@);
}

/// A zone file reads back as its records, their TTLs made explicit, when
/// names, types and values hold no tab or newline and the domain no newline.
#[verifier::rlimit(50)]
pub proof fn lemma_zone_file_round_trip(z: ZoneSpec)
    requires
        forall|k: int| 0 <= k < z.domain@.len() ==> z.domain@[k] != '\n',
        forall|i: int|
            0 <= i < z.records@.len() ==> plain_field(#[trigger] z.records@[i].name@) && plain_field(
                z.records@[i].record_type@,
            ) && plain_field(z.records@[i].value@),
    ensures
        parse_zone_records(zone_file_text(z)) == z.records@.map_values(|r: DnsRecord| Some(record_fields(r))),
{
    let hs = header_lines(z);
    let bs = record_bodies(z.records@);
    lemma_decimal_round_trip(ttl_or_default(z.ttl));
    let d = decimal(ttl_or_default(z.ttl));
    lemma_header_terminated(z);
    lemma_records_text_terminated(z.records@);
    lemma_terminated_concat(hs, bs);
    assert(zone_file_text(z) == terminated(hs + bs));
    lemma_header_plain(z);
    assert forall|i: int, k: int| 0 <= i < (hs + bs).len() && 0 <= k < (hs + bs)[i].len() implies (hs
        + bs)[i][k] != '\n' by {
        if i >= 11 {
            let r = z.records@[i - 11];
            assert(plain_field(r.name@));
            assert((hs + bs)[i] == record_line(r).drop_last());
            lemma_body_plain(r);
        } else {
            assert((hs + bs)[i] == hs[i]);
        }
    }
    lemma_split_terminated(hs + bs);
    let parts = split_on(zone_file_text(z), '\n');
    assert(parts.subrange(11, parts.len() - 1) =~= bs);
    assert forall|i: int| 0 <= i < z.records@.len() implies #[trigger] parse_record_line(bs[i]) == Some(record_fields(z.records@[i])) by {
        let r = z.records@[i];
        assert(plain_field(r.name@));
        lemma_record_line_round_trip(r);
    }
    assert(parse_zone_records(zone_file_text(z)) =~= z.records@.map_values(|r: DnsRecord| Some(record_fields(r))));
}

} // verus!
