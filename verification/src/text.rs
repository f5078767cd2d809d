//! Dotted-decimal text: the form "a.b.c.d" of a 32-bit address, where each of
//! the four fields is a decimal number from 0 to 255.
//!
//! A field is written with one to three digits and without a leading zero,
//! so every address has exactly one text, and reading and writing are
//! inverse to each other.

use vstd::prelude::*;

verus! {

/// The outcome of reading a text as an address. A text that is not an address
/// is an ordinary, lasting state of an input field, so it is a value here and
/// not an error to be raised.
#[derive(Clone, Copy, Debug, PartialEq, Eq, Structural)]
pub enum Parsed {
    /// The text is in dotted-decimal form and denotes this address.
    Valid(u32),
    /// The text is not in dotted-decimal form: it has another number of
    /// fields than four, or a field that is no number from 0 to 255.
    Invalid,
}

/// Whether `c` is one of the ten decimal digits.
pub open spec fn is_digit(c: char) -> bool {
    '0' <= c && c <= '9'
}

/// The number that a decimal digit stands for.
pub open spec fn digit_value(c: char) -> nat
    recommends
        is_digit(c),
{
    (c as u32 - '0' as u32) as nat
}

/// The character for a decimal digit.
pub open spec fn digit_char(d: nat) -> char
    recommends
        d < 10,
{
    ('0' as u32 + d) as char
}

/// The number that a run of decimal digits stands for; the empty run is 0.
pub open spec fn decimal_value(s: Seq<char>) -> nat
    decreases s.len(),
{
    if s.len() == 0 {
        0
    } else {
        10 * decimal_value(s.drop_last()) + digit_value(s.last())
    }
}

/// A number in decimal, without leading zeros; 0 is written "0".
pub open spec fn decimal_text(n: nat) -> Seq<char>
    decreases n,
{
    if n < 10 {
        seq![digit_char(n)]
    } else {
        decimal_text(n / 10).push(digit_char(n % 10))
    }
}

/// Text that a field may begin with: at most three digits, no zero in front
/// of another digit, and a value of at most 255.
pub open spec fn is_octet_prefix(s: Seq<char>) -> bool {
    &&& s.len() <= 3
    &&& forall|i: int| 0 <= i < s.len() ==> is_digit(#[trigger] s[i])
    &&& (s.len() > 1 ==> s[0] != '0')
    &&& decimal_value(s) <= 255
}

/// A whole field: a number from 0 to 255 in decimal, written with one to
/// three digits and without a leading zero.
pub open spec fn is_octet_text(s: Seq<char>) -> bool {
    s.len() >= 1 && is_octet_prefix(s)
}

/// The fields of a text, which the dots in it separate. A text without a dot
/// is one field; the empty text is one empty field.
pub open spec fn split_on_dots(s: Seq<char>) -> Seq<Seq<char>>
    decreases s.len(),
{
    if s.len() == 0 {
        seq![Seq::<char>::empty()]
    } else {
        let before = split_on_dots(s.drop_last());
        if s.last() == '.' {
            before.push(Seq::<char>::empty())
        } else {
            before.drop_last().push(before.last().push(s.last()))
        }
    }
}

/// Fields put together to one text, with a dot between each two.
pub open spec fn join_with_dots(fields: Seq<Seq<char>>) -> Seq<char>
    decreases fields.len(),
{
    if fields.len() == 0 {
        Seq::<char>::empty()
    } else if fields.len() == 1 {
        fields[0]
    } else {
        join_with_dots(fields.drop_last()) + seq!['.'] + fields.last()
    }
}

/// The number with the four octets `a`, `b`, `c`, `d`, highest first.
pub open spec fn address_from_octets(a: nat, b: nat, c: nat, d: nat) -> nat {
    ((a * 256 + b) * 256 + c) * 256 + d
}

/// Whether a text is an address in dotted-decimal form: exactly four fields,
/// each of them a whole octet.
pub open spec fn is_dotted_decimal(s: Seq<char>) -> bool {
    let fields = split_on_dots(s);
    &&& fields.len() == 4
    &&& is_octet_text(fields[0])
    &&& is_octet_text(fields[1])
    &&& is_octet_text(fields[2])
    &&& is_octet_text(fields[3])
}

/// What a text denotes: the address, for a text in dotted-decimal form, and
/// `Invalid` for every other text.
pub open spec fn parse_dotted_decimal(s: Seq<char>) -> Parsed {
    let fields = split_on_dots(s);
    if is_dotted_decimal(s) {
        Parsed::Valid(
            address_from_octets(
                decimal_value(fields[0]),
                decimal_value(fields[1]),
                decimal_value(fields[2]),
                decimal_value(fields[3]),
            ) as u32,
        )
    } else {
        Parsed::Invalid
    }
}

/// An address in dotted-decimal form: its four octets in decimal, highest
/// first, with a dot between each two.
pub open spec fn dotted_decimal(addr: u32) -> Seq<char> {
    join_with_dots(
        seq![
            decimal_text((addr / 0x100_0000) as nat),
            decimal_text((addr / 0x1_0000 % 0x100) as nat),
            decimal_text((addr / 0x100 % 0x100) as nat),
            decimal_text((addr % 0x100) as nat),
        ],
    )
}

/// Whether a text can still grow into dotted-decimal form: at most four
/// fields, all but the last whole octets, the last the beginning of one.
pub open spec fn is_dotted_prefix(s: Seq<char>) -> bool {
    let fields = split_on_dots(s);
    &&& fields.len() <= 4
    &&& forall|j: int| 0 <= j < fields.len() - 1 ==> is_octet_text(#[trigger] fields[j])
    &&& is_octet_prefix(fields.last())
}

/// The first `n` fields read as one number, each field an octet of it.
pub open spec fn octets_value(fields: Seq<Seq<char>>, n: int) -> nat
    decreases n,
{
    if n <= 0 {
        0
    } else {
        octets_value(fields, n - 1) * 256 + decimal_value(fields[n - 1])
    }
}

/// What the reader knows of the text it has read so far.
pub struct Scan {
    /// How many fields are complete.
    pub done: u8,
    /// The complete fields as one number.
    pub high: u32,
    /// The length of the field that is being read.
    pub len: u8,
    /// The value of the field that is being read.
    pub value: u32,
    /// Whether the field that is being read begins with a zero.
    pub zero_first: bool,
}

impl Scan {
    /// Whether the scan is what is to be known of the text `s`, which can
    /// still grow into dotted-decimal form.
    pub open spec fn describes(self, s: Seq<char>) -> bool {
        let fields = split_on_dots(s);
        &&& is_dotted_prefix(s)
        &&& fields.len() == self.done + 1
        &&& self.high == octets_value(fields, self.done as int)
        &&& fields.last().len() == self.len
        &&& self.value == decimal_value(fields.last())
        &&& self.zero_first <==> self.len >= 1 && fields.last()[0] == '0'
    }

    /// Whether a dot can follow: a field is there to end, and it is not the
    /// fourth.
    pub open spec fn takes_dot(self) -> bool {
        self.done < 3 && self.len >= 1
    }

    /// The scan after a dot.
    pub open spec fn after_dot(self) -> Scan {
        Scan {
            done: (self.done + 1) as u8,
            high: (self.high * 256 + self.value) as u32,
            len: 0,
            value: 0,
            zero_first: false,
        }
    }

    /// Whether the character `c`, which is no dot, can follow: it is a digit
    /// that leaves the field an octet.
    pub open spec fn takes(self, c: char) -> bool {
        &&& is_digit(c)
        &&& self.len < 3
        &&& !self.zero_first
        &&& self.value * 10 + digit_value(c) <= 255
    }

    /// The scan after a digit.
    pub open spec fn after(self, c: char) -> Scan {
        Scan {
            done: self.done,
            high: self.high,
            len: (self.len + 1) as u8,
            value: (self.value * 10 + digit_value(c)) as u32,
            zero_first: if self.len == 0 {
                c == '0'
            } else {
                self.zero_first
            },
        }
    }

    /// What the text denotes, if it ends here.
    pub open spec fn result(self) -> Parsed {
        if self.done == 3 && self.len >= 1 {
            Parsed::Valid((self.high * 256 + self.value) as u32)
        } else {
            Parsed::Invalid
        }
    }
}

/// Reads a text as an address in dotted-decimal form.
pub fn parse_ipv4(text: &str) -> (parsed: Parsed)
    ensures
        parsed == parse_dotted_decimal(text@),
{
    let mut scan = Scan { done: 0, high: 0, len: 0, value: 0, zero_first: false };
    proof {
        lemma_scan_start();
    }
    for c in it: text.chars()
        invariant
            it.seq() == text@,
            scan.describes(text@.take(it.index() as int)),
    {
        proof {
            let read = text@.take(it.index() as int);
            assert(text@.take(it.index() + 1) == read.push(c));
            lemma_scan_bounds(scan, read);
            lemma_scan_step(scan, read, c);
            if !is_dotted_prefix(read.push(c)) {
                lemma_dotted_prefix_needed(text@, it.index() + 1);
            }
        }
        if c == '.' {
            if scan.done == 3 || scan.len == 0 {
                return Parsed::Invalid;
            }
            scan = Scan {
                done: scan.done + 1,
                high: scan.high * 256 + scan.value,
                len: 0,
                value: 0,
                zero_first: false,
            };
        } else {
            if !('0' <= c && c <= '9') || scan.len == 3 || scan.zero_first {
                return Parsed::Invalid;
            }
            let value: u32 = scan.value * 10 + (c as u32 - '0' as u32);
            if value > 255 {
                return Parsed::Invalid;
            }
            scan = Scan {
                done: scan.done,
                high: scan.high,
                len: scan.len + 1,
                value,
                zero_first: if scan.len == 0 {
                    c == '0'
                } else {
                    scan.zero_first
                },
            };
        }
    }
    proof {
        assert(text@.take(text@.len() as int) == text@);
        lemma_scan_bounds(scan, text@);
        lemma_scan_end(scan, text@);
    }
    if scan.done == 3 && scan.len >= 1 {
        Parsed::Valid(scan.high * 256 + scan.value)
    } else {
        Parsed::Invalid
    }
}

/// Appends one decimal digit to a text.
fn push_digit(text: &mut String, d: u8)
    requires
        d < 10,
    ensures
        final(text)@ == old(text)@.push(digit_char(d as nat)),
{
    let digits = "0123456789";
    proof {
        reveal_strlit("0123456789");
    }
    let at: usize = d as usize;
    let digit = digits.substring_ascii(at, at + 1);
    assert(digit@ == seq![digit_char(d as nat)]);
    text.append(digit);
}

/// Appends a number from 0 to 255 in decimal to a text.
fn push_octet(text: &mut String, n: u8)
    ensures
        final(text)@ == old(text)@ + decimal_text(n as nat),
{
    proof {
        reveal_with_fuel(decimal_text, 3);
    }
    if n >= 100 {
        push_digit(text, n / 100);
    }
    if n >= 10 {
        push_digit(text, n / 10 % 10);
    }
    push_digit(text, n % 10);
}

/// Writes an address in dotted-decimal form.
pub fn format_ipv4(addr: u32) -> (text: String)
    ensures
        text@ == dotted_decimal(addr),
{
    let mut text = String::new();
    push_octet(&mut text, (addr / 0x100_0000) as u8);
    text.append(".");
    push_octet(&mut text, (addr / 0x1_0000 % 0x100) as u8);
    text.append(".");
    push_octet(&mut text, (addr / 0x100 % 0x100) as u8);
    text.append(".");
    push_octet(&mut text, (addr % 0x100) as u8);
    proof {
        reveal_strlit(".");
        lemma_join_four(
            decimal_text((addr / 0x100_0000) as nat),
            decimal_text((addr / 0x1_0000 % 0x100) as nat),
            decimal_text((addr / 0x100 % 0x100) as nat),
            decimal_text((addr % 0x100) as nat),
        );
    }
    text
}

/// A text always has at least one field.
pub proof fn lemma_split_nonempty(s: Seq<char>)
    ensures
        split_on_dots(s).len() >= 1,
    decreases s.len(),
{
    if s.len() > 0 {
        lemma_split_nonempty(s.drop_last());
    }
}

/// The fields of a text that ends in a dot: those of the text before the
/// dot, and an empty one.
proof fn lemma_split_push_dot(s: Seq<char>)
    ensures
        split_on_dots(s.push('.')) == split_on_dots(s).push(Seq::<char>::empty()),
{
    assert(s.push('.').drop_last() == s);
}

/// The fields of a text that ends in another character than a dot: those of
/// the text before it, the last of them longer by that character.
proof fn lemma_split_push_other(s: Seq<char>, c: char)
    requires
        c != '.',
    ensures
        split_on_dots(s.push(c)) == split_on_dots(s).drop_last().push(
            split_on_dots(s).last().push(c),
        ),
        split_on_dots(s.push(c)).len() == split_on_dots(s).len(),
{
    assert(s.push(c).drop_last() == s);
    lemma_split_nonempty(s);
}

/// The value of a run of digits that is longer by one digit.
proof fn lemma_decimal_value_push(s: Seq<char>, c: char)
    ensures
        decimal_value(s.push(c)) == 10 * decimal_value(s) + digit_value(c),
{
    assert(s.push(c).drop_last() == s);
}

/// The number that the first `n` fields stand for depends on them alone.
proof fn lemma_octets_value_same(a: Seq<Seq<char>>, b: Seq<Seq<char>>, n: int)
    requires
        n <= a.len(),
        n <= b.len(),
        forall|j: int| 0 <= j < n ==> a[j] == b[j],
    ensures
        octets_value(a, n) == octets_value(b, n),
    decreases n,
{
    if n > 0 {
        lemma_octets_value_same(a, b, n - 1);
    }
}

/// The first `n` fields, each an octet, stand for a number below `256^n`.
proof fn lemma_octets_value_bound(fields: Seq<Seq<char>>, n: int)
    requires
        0 <= n <= 3,
        n <= fields.len(),
        forall|j: int| 0 <= j < n ==> is_octet_text(#[trigger] fields[j]),
    ensures
        n == 0 ==> octets_value(fields, n) == 0,
        n == 1 ==> octets_value(fields, n) < 0x100,
        n == 2 ==> octets_value(fields, n) < 0x1_0000,
        n == 3 ==> octets_value(fields, n) < 0x100_0000,
    decreases n,
{
    if n > 0 {
        lemma_octets_value_bound(fields, n - 1);
        assert(is_octet_text(fields[n - 1]));
    }
}

/// The empty scan describes the empty text.
proof fn lemma_scan_start()
    ensures
        (Scan { done: 0, high: 0, len: 0, value: 0, zero_first: false }).describes(
            Seq::<char>::empty(),
        ),
{
    let empty = Seq::<char>::empty();
    assert(split_on_dots(empty) == seq![empty]);
}

/// The numbers of a scan are small.
proof fn lemma_scan_bounds(scan: Scan, s: Seq<char>)
    requires
        scan.describes(s),
    ensures
        scan.done <= 3,
        scan.len <= 3,
        scan.value <= 255,
        scan.high < 0x100_0000,
{
    lemma_octets_value_bound(split_on_dots(s), scan.done as int);
}

/// One step of the reader. A character that the scan takes leads to the
/// scan of the longer text; after any other character the text cannot grow
/// into dotted-decimal form any more.
proof fn lemma_scan_step(scan: Scan, s: Seq<char>, c: char)
    requires
        scan.describes(s),
    ensures
        c == '.' && scan.takes_dot() ==> scan.after_dot().describes(s.push(c)),
        c == '.' && !scan.takes_dot() ==> !is_dotted_prefix(s.push(c)),
        c != '.' && scan.takes(c) ==> scan.after(c).describes(s.push(c)),
        c != '.' && !scan.takes(c) ==> !is_dotted_prefix(s.push(c)),
{
    let fields = split_on_dots(s);
    let cur = fields.last();
    lemma_scan_bounds(scan, s);
    if c == '.' {
        let next = fields.push(Seq::<char>::empty());
        lemma_split_push_dot(s);
        if scan.takes_dot() {
            assert forall|j: int| 0 <= j < next.len() - 1 implies is_octet_text(
                #[trigger] next[j],
            ) by {
                assert(next[j] == fields[j]);
            }
            lemma_octets_value_same(fields, next, scan.done as int);
            assert(octets_value(next, scan.done + 1) == octets_value(next, scan.done as int) * 256
                + decimal_value(next[scan.done as int]));
            assert(decimal_value(next.last()) == 0);
        } else {
            if scan.len == 0 {
                assert(next[scan.done as int] == cur);
            }
        }
    } else {
        let grown = cur.push(c);
        let next = fields.drop_last().push(grown);
        lemma_split_push_other(s, c);
        lemma_decimal_value_push(cur, c);
        assert(next.last() == grown);
        assert(grown[scan.len as int] == c);
        if scan.len >= 1 {
            assert(grown[0] == cur[0]);
        }
        if scan.takes(c) {
            assert forall|i: int| 0 <= i < grown.len() implies is_digit(#[trigger] grown[i]) by {
                if i < cur.len() {
                    assert(grown[i] == cur[i]);
                }
            }
            assert forall|j: int| 0 <= j < next.len() - 1 implies is_octet_text(
                #[trigger] next[j],
            ) by {
                assert(next[j] == fields[j]);
            }
            lemma_octets_value_same(fields, next, scan.done as int);
        }
    }
}

/// At the end of the text, the result of the scan is what the text denotes.
proof fn lemma_scan_end(scan: Scan, s: Seq<char>)
    requires
        scan.describes(s),
    ensures
        scan.result() == parse_dotted_decimal(s),
{
    let fields = split_on_dots(s);
    lemma_scan_bounds(scan, s);
    if scan.done == 3 {
        assert(octets_value(fields, 3) == address_from_octets(
            0,
            decimal_value(fields[0]),
            decimal_value(fields[1]),
            decimal_value(fields[2]),
        )) by {
            reveal_with_fuel(octets_value, 4);
        }
        assert(is_octet_text(fields[0]));
        assert(is_octet_text(fields[1]));
        assert(is_octet_text(fields[2]));
    }
}

/// Dropping the last character of a text that can grow into dotted-decimal
/// form leaves such a text.
proof fn lemma_dotted_prefix_step(s: Seq<char>)
    requires
        s.len() > 0,
        is_dotted_prefix(s),
    ensures
        is_dotted_prefix(s.drop_last()),
{
    let before = split_on_dots(s.drop_last());
    lemma_split_nonempty(s.drop_last());
    if s.last() == '.' {
        assert(split_on_dots(s) == before.push(Seq::<char>::empty()));
        assert forall|j: int| 0 <= j < before.len() - 1 implies is_octet_text(
            #[trigger] before[j],
        ) by {
            assert(before[j] == split_on_dots(s)[j]);
        }
        assert(before.last() == split_on_dots(s)[before.len() - 1]);
    } else {
        let cur = before.last();
        let grown = cur.push(s.last());
        assert(split_on_dots(s) == before.drop_last().push(grown));
        assert(split_on_dots(s).last() == grown);
        assert(grown.drop_last() == cur);
        assert forall|i: int| 0 <= i < cur.len() implies is_digit(#[trigger] cur[i]) by {
            assert(cur[i] == grown[i]);
        }
        if cur.len() > 1 {
            assert(cur[0] == grown[0]);
        }
        assert forall|j: int| 0 <= j < before.len() - 1 implies is_octet_text(
            #[trigger] before[j],
        ) by {
            assert(before[j] == split_on_dots(s)[j]);
        }
    }
}

/// Every beginning of a text that can grow into dotted-decimal form can
/// grow into it too.
proof fn lemma_dotted_prefix_closed(s: Seq<char>, n: int)
    requires
        0 <= n <= s.len(),
        is_dotted_prefix(s),
    ensures
        is_dotted_prefix(s.take(n)),
    decreases s.len() - n,
{
    if n == s.len() {
        assert(s.take(n) == s);
    } else {
        lemma_dotted_prefix_closed(s, n + 1);
        lemma_dotted_prefix_step(s.take(n + 1));
        assert(s.take(n + 1).drop_last() == s.take(n));
    }
}

/// A text with a beginning that cannot grow into dotted-decimal form is not
/// in that form.
proof fn lemma_dotted_prefix_needed(s: Seq<char>, n: int)
    requires
        0 <= n <= s.len(),
        !is_dotted_prefix(s.take(n)),
    ensures
        parse_dotted_decimal(s) == Parsed::Invalid,
{
    if is_dotted_decimal(s) {
        let fields = split_on_dots(s);
        assert forall|j: int| 0 <= j < fields.len() - 1 implies is_octet_text(
            #[trigger] fields[j],
        ) by {
            assert(j == 0 || j == 1 || j == 2);
        }
        lemma_dotted_prefix_closed(s, n);
    }
}

/// Whether a text holds no dot.
pub open spec fn has_no_dot(s: Seq<char>) -> bool {
    forall|i: int| 0 <= i < s.len() ==> #[trigger] s[i] != '.'
}

/// Four fields joined: the fields in their order, with three dots between
/// them.
pub proof fn lemma_join_four(a: Seq<char>, b: Seq<char>, c: Seq<char>, d: Seq<char>)
    ensures
        join_with_dots(seq![a, b, c, d]) == a + seq!['.'] + b + seq!['.'] + c + seq!['.'] + d,
{
    let four = seq![a, b, c, d];
    let three = seq![a, b, c];
    let two = seq![a, b];
    let one = seq![a];
    assert(four.drop_last() == three);
    assert(three.drop_last() == two);
    assert(two.drop_last() == one);
    assert(join_with_dots(one) == a);
    assert(join_with_dots(two) == a + seq!['.'] + b);
    assert(join_with_dots(three) == a + seq!['.'] + b + seq!['.'] + c);
}

/// Text without a dot, put behind a text, lengthens its last field.
proof fn lemma_split_append(s: Seq<char>, t: Seq<char>)
    requires
        has_no_dot(t),
    ensures
        split_on_dots(s + t) == split_on_dots(s).drop_last().push(split_on_dots(s).last() + t),
    decreases t.len(),
{
    let fields = split_on_dots(s);
    lemma_split_nonempty(s);
    if t.len() == 0 {
        assert(s + t == s);
        assert(fields.last() + t == fields.last());
        assert(fields.drop_last().push(fields.last()) == fields);
    } else {
        lemma_split_append(s, t.drop_last());
        assert(s + t == (s + t.drop_last()).push(t.last()));
        assert(t[t.len() - 1] != '.');
        lemma_split_push_other(s + t.drop_last(), t.last());
        let before = fields.drop_last().push(fields.last() + t.drop_last());
        assert(before.drop_last() == fields.drop_last());
        assert((fields.last() + t.drop_last()).push(t.last()) == fields.last() + t);
    }
}

/// Splitting takes apart what joining put together, where no field holds a
/// dot.
pub proof fn lemma_split_of_join(fields: Seq<Seq<char>>)
    requires
        fields.len() >= 1,
        forall|j: int| 0 <= j < fields.len() ==> has_no_dot(#[trigger] fields[j]),
    ensures
        split_on_dots(join_with_dots(fields)) == fields,
    decreases fields.len(),
{
    let empty = Seq::<char>::empty();
    if fields.len() == 1 {
        lemma_split_append(empty, fields[0]);
        assert(empty + fields[0] == fields[0]);
        assert(split_on_dots(empty) == seq![empty]);
        assert(seq![empty].drop_last().push(empty + fields[0]) == fields);
    } else {
        let init = fields.drop_last();
        lemma_split_of_join(init);
        let head = join_with_dots(init).push('.');
        assert(join_with_dots(init) + seq!['.'] == head);
        lemma_split_push_dot(join_with_dots(init));
        lemma_split_append(head, fields.last());
        assert(empty + fields.last() == fields.last());
        assert(init.push(empty).drop_last() == init);
        assert(init.push(fields.last()) == fields);
    }
}

/// Joining the fields of a text gives the text back.
pub proof fn lemma_join_of_split(s: Seq<char>)
    ensures
        join_with_dots(split_on_dots(s)) == s,
    decreases s.len(),
{
    let empty = Seq::<char>::empty();
    if s.len() == 0 {
        assert(split_on_dots(s) == seq![empty]);
    } else {
        let before = split_on_dots(s.drop_last());
        lemma_split_nonempty(s.drop_last());
        lemma_join_of_split(s.drop_last());
        if s.last() == '.' {
            let fields = before.push(empty);
            assert(fields.drop_last() == before);
            assert(s.drop_last() + seq!['.'] + empty == s);
        } else {
            let grown = before.last().push(s.last());
            let fields = before.drop_last().push(grown);
            assert(fields.drop_last() == before.drop_last());
            if before.len() == 1 {
                assert(before[0] == s.drop_last());
                assert(grown == s);
            } else {
                let head = join_with_dots(before.drop_last()) + seq!['.'];
                assert(s.drop_last() == head + before.last());
                assert(head + grown == (head + before.last()).push(s.last()));
                assert(s.drop_last().push(s.last()) == s);
            }
        }
    }
}

/// A number in decimal is made of digits, has no zero in front unless it is
/// "0", is as long as the number asks, and stands for that number.
pub proof fn lemma_decimal_text(n: nat)
    ensures
        decimal_text(n).len() >= 1,
        forall|i: int| 0 <= i < decimal_text(n).len() ==> is_digit(#[trigger] decimal_text(n)[i]),
        n >= 1 ==> decimal_text(n)[0] != '0',
        n < 10 <==> decimal_text(n).len() == 1,
        n < 100 ==> decimal_text(n).len() <= 2,
        n < 1000 ==> decimal_text(n).len() <= 3,
        decimal_value(decimal_text(n)) == n,
    decreases n,
{
    if n < 10 {
        let text = seq![digit_char(n)];
        assert(text.drop_last() == Seq::<char>::empty());
        assert(decimal_value(text.drop_last()) == 0);
    } else {
        lemma_decimal_text(n / 10);
        let text = decimal_text(n / 10).push(digit_char(n % 10));
        lemma_decimal_value_push(decimal_text(n / 10), digit_char(n % 10));
        assert forall|i: int| 0 <= i < text.len() implies is_digit(#[trigger] text[i]) by {
            if i < text.len() - 1 {
                assert(text[i] == decimal_text(n / 10)[i]);
            }
        }
        assert(text[0] == decimal_text(n / 10)[0]);
    }
}

/// Digits without a zero in front are the decimal form of their value.
pub proof fn lemma_decimal_text_of_value(s: Seq<char>)
    requires
        s.len() >= 1,
        forall|i: int| 0 <= i < s.len() ==> is_digit(#[trigger] s[i]),
        s.len() > 1 ==> s[0] != '0',
    ensures
        decimal_text(decimal_value(s)) == s,
        s.len() > 1 ==> decimal_value(s) >= 10,
        s[0] != '0' ==> decimal_value(s) >= 1,
    decreases s.len(),
{
    let init = s.drop_last();
    let d = digit_value(s.last());
    assert(is_digit(s[s.len() - 1]));
    assert(digit_char(d) == s.last());
    if s.len() == 1 {
        assert(decimal_value(init) == 0);
        assert(seq![s.last()] == s);
    } else {
        assert forall|i: int| 0 <= i < init.len() implies is_digit(#[trigger] init[i]) by {
            assert(init[i] == s[i]);
        }
        assert(init[0] == s[0]);
        lemma_decimal_text_of_value(init);
        let v = decimal_value(init);
        assert((10 * v + d) / 10 == v);
        assert((10 * v + d) % 10 == d);
        assert(init.push(s.last()) == s);
    }
}

/// A number made of four octets fits in 32 bits, and dividing it gives the
/// octets back.
pub proof fn lemma_octets_of_address(a: nat, b: nat, c: nat, d: nat)
    requires
        a <= 255,
        b <= 255,
        c <= 255,
        d <= 255,
    ensures
        address_from_octets(a, b, c, d) <= u32::MAX,
        address_from_octets(a, b, c, d) / 0x100_0000 == a,
        address_from_octets(a, b, c, d) / 0x1_0000 % 0x100 == b,
        address_from_octets(a, b, c, d) / 0x100 % 0x100 == c,
        address_from_octets(a, b, c, d) % 0x100 == d,
{
}

/// Reading what was written gives the address back.
pub proof fn lemma_parse_of_dotted_decimal(addr: u32)
    ensures
        parse_dotted_decimal(dotted_decimal(addr)) == Parsed::Valid(addr),
{
    let a = (addr / 0x100_0000) as nat;
    let b = (addr / 0x1_0000 % 0x100) as nat;
    let c = (addr / 0x100 % 0x100) as nat;
    let d = (addr % 0x100) as nat;
    let fields = seq![decimal_text(a), decimal_text(b), decimal_text(c), decimal_text(d)];
    lemma_decimal_text(a);
    lemma_decimal_text(b);
    lemma_decimal_text(c);
    lemma_decimal_text(d);
    assert forall|j: int| 0 <= j < fields.len() implies has_no_dot(#[trigger] fields[j]) by {
        assert(j == 0 || j == 1 || j == 2 || j == 3);
    }
    lemma_split_of_join(fields);
    assert(address_from_octets(a, b, c, d) == addr);
}

/// A text that reads as an address is that address as it is written.
pub proof fn lemma_dotted_decimal_of_parse(s: Seq<char>, addr: u32)
    requires
        parse_dotted_decimal(s) == Parsed::Valid(addr),
    ensures
        dotted_decimal(addr) == s,
{
    let fields = split_on_dots(s);
    let a = decimal_value(fields[0]);
    let b = decimal_value(fields[1]);
    let c = decimal_value(fields[2]);
    let d = decimal_value(fields[3]);
    lemma_decimal_text_of_value(fields[0]);
    lemma_decimal_text_of_value(fields[1]);
    lemma_decimal_text_of_value(fields[2]);
    lemma_decimal_text_of_value(fields[3]);
    lemma_octets_of_address(a, b, c, d);
    lemma_join_of_split(s);
    assert(fields == seq![fields[0], fields[1], fields[2], fields[3]]);
}

} // verus!
