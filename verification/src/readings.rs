//! What holds of texts that are read and written: how they are split, trimmed and joined, that
//! numbers and bytes are read back as they were written, and what tools' reports come to.
use vstd::prelude::*;

use crate::clock::Timestamp;
use crate::command_course::lemma_split_at_first;
use crate::connectivity::{
    has_kernel_address, is_connectivity, is_kernel_address, is_listed_socket, kernel_v4, kernel_v6,
    netstat_endpoint, netstat_row, netstat_rows, proc_lines, reads_socket, socket_lines,
    NetstatRowView, ProbeError, ProcSocket, SocketAddress,
};
use crate::diff::FileKind;
use crate::identity::{hex_bytes, hex_text, is_hex};
use crate::model::{
    fresh_environment, ApplyPlanView, CapabilityView, ChangeKind, ChangeView, Direction,
    DoctorCheckView, EnvironmentPolicy, EnvironmentStatus, EnvironmentView, LinuxImageChangeView,
    RouteCandidateView, TransactionView, ValidationState,
};
use crate::order::{
    byte_order, bytes_before, char_order, lemma_lex_common, lemma_lex_irreflexive, text_before,
};
use crate::path::{
    drop_blank_back, drop_blank_front, is_blank_piece, is_rooted, parts, piece_parts, PathPart,
};
use crate::platform::lima::{first_version, is_machine_name, is_supported, lima_refusal};
use crate::report::{
    all_circuit_lines, candidate_lines, change_lines, circuit_lines, doctor_line, history_lines,
    image_change_lines, is_unfit, list_lines, lost_count, plan_lines, status_lines,
    transaction_line, ListRow,
};
use crate::session::normalized;
use crate::store::{is_identifier, is_valid_name};
use crate::text::{
    decimal, digit_char, digit_value, first_position, has_prefix, has_substring, in_margin,
    is_digit_of, is_space, join_texts, last_position, lines, non_empty, number_of, padded, pieces,
    separates, split_first, split_last, strip_back, strip_front, trimmed, unsigned, unsigned_digits,
    without_return, words, Margin, Separator,
};

verus! {

/// Whether no character of a text separates.
pub open spec fn is_whole(s: Seq<char>, sep: Separator) -> bool {
    forall|i: int| 0 <= i < s.len() ==> !separates(sep, #[trigger] s[i])
}

/// A text is split at each separator and nowhere else: one without any is one piece, and the pieces
/// of two texts with a separator between them are those of both.
pub proof fn law_texts_are_split_at_separators(
    a: Seq<char>,
    c: char,
    b: Seq<char>,
    sep: Separator,
)
    ensures
        is_whole(a, sep) ==> pieces(a, sep) == seq![a],
        separates(sep, c) ==> pieces(a.push(c) + b, sep) == pieces(a, sep) + pieces(b, sep),
    decreases a.len() + b.len(),
{
    if is_whole(a, sep) {
        if a.len() > 0 {
            let shorter = a.drop_last();
            law_texts_are_split_at_separators(shorter, c, Seq::empty(), sep);
            assert(!separates(sep, a[a.len() - 1]));
            assert(pieces(a, sep) =~= seq![a]) by {
                assert(shorter.push(a.last()) =~= a);
            }
        } else {
            assert(a =~= Seq::<char>::empty());
        }
    }
    if separates(sep, c) {
        let whole = a.push(c) + b;
        if b.len() == 0 {
            assert(whole.drop_last() =~= a);
            assert(pieces(b, sep) =~= seq![Seq::<char>::empty()]);
            assert(pieces(whole, sep) =~= pieces(a, sep) + pieces(b, sep));
        } else {
            let shorter = b.drop_last();
            law_texts_are_split_at_separators(a, c, shorter, sep);
            lemma_pieces_exist(shorter, sep);
            assert(whole.drop_last() =~= a.push(c) + shorter);
            assert(whole.last() == b.last());
            let before = pieces(a, sep) + pieces(shorter, sep);
            assert(before.last() == pieces(shorter, sep).last());
            assert(before.drop_last() =~= pieces(a, sep) + pieces(shorter, sep).drop_last());
            assert(pieces(whole, sep) =~= pieces(a, sep) + pieces(b, sep));
        }
    }
}

proof fn lemma_pieces_exist(s: Seq<char>, sep: Separator)
    ensures
        pieces(s, sep).len() > 0,
    decreases s.len(),
{
    if s.len() > 0 {
        lemma_pieces_exist(s.drop_last(), sep);
    }
}

proof fn lemma_non_empty_joins(a: Seq<Seq<char>>, b: Seq<Seq<char>>)
    ensures
        non_empty(a + b) == non_empty(a) + non_empty(b),
    decreases b.len(),
{
    if b.len() == 0 {
        assert(a + b =~= a);
        assert(non_empty(b) =~= Seq::empty());
        assert(non_empty(a) + non_empty(b) =~= non_empty(a));
    } else {
        let shorter = b.drop_last();
        lemma_non_empty_joins(a, shorter);
        assert((a + b).drop_last() =~= a + shorter);
        assert((a + b).last() == b.last());
        assert(non_empty(a + b) =~= non_empty(a) + non_empty(b));
    }
}

/// The words of a text are its longest runs without white space: such a run is one word, and the
/// words of two texts with white space between them are those of both.
pub proof fn law_words_stand_between_white_space(a: Seq<char>, c: char, b: Seq<char>)
    ensures
        a.len() > 0 && is_whole(a, Separator::Space) ==> words(a) == seq![a],
        a.len() == 0 ==> words(a).len() == 0,
        is_space(c) ==> words(a.push(c) + b) == words(a) + words(b),
{
    law_texts_are_split_at_separators(a, c, b, Separator::Space);
    if a.len() > 0 && is_whole(a, Separator::Space) {
        let one = seq![a];
        assert(one.drop_last() =~= Seq::empty());
        assert(non_empty(one.drop_last()) =~= Seq::empty());
        assert(words(a) =~= one);
    }
    if a.len() == 0 {
        let one = pieces(a, Separator::Space);
        assert(one =~= seq![Seq::<char>::empty()]);
        assert(one.drop_last() =~= Seq::empty());
        assert(one.last().len() == 0);
        assert(non_empty(one.drop_last()) =~= Seq::empty());
    }
    if is_space(c) {
        lemma_non_empty_joins(pieces(a, Separator::Space), pieces(b, Separator::Space));
    }
}

/// A line ends at a line feed, and a carriage return before that is no part of it; the last line
/// needs none. The lines of a text follow one another as they stand in it.
pub proof fn law_lines_end_at_line_feeds(a: Seq<char>, b: Seq<char>)
    requires
        is_whole(a, Separator::Char('\n')),
    ensures
        a.len() > 0 ==> lines(a) == seq![a],
        a.len() == 0 ==> lines(a).len() == 0,
        lines(a.push('\n') + b) == seq![without_return(a)] + lines(b),
        a.len() > 0 && a.last() == '\r' ==> without_return(a) == a.drop_last(),
        a.len() == 0 || a.last() != '\r' ==> without_return(a) == a,
{
    let sep = Separator::Char('\n');
    law_texts_are_split_at_separators(a, '\n', b, sep);
    lemma_pieces_exist(b, sep);
    let all = pieces(a.push('\n') + b, sep);
    assert(all =~= seq![a] + pieces(b, sep));
    assert(all.last() == pieces(b, sep).last());
    assert(lines(a.push('\n') + b) =~= seq![without_return(a)] + lines(b));
    if a.len() > 0 {
        assert(lines(a) =~= seq![a]);
    }
}

/// White space around a text does not count, and nothing else is taken away.
pub proof fn law_trimming_takes_white_space_alone(s: Seq<char>, c: char)
    ensures
        is_space(c) ==> trimmed(seq![c] + s) == trimmed(s),
        is_space(c) ==> trimmed(s.push(c)) == trimmed(s),
        s.len() > 0 && !is_space(s[0]) && !is_space(s.last()) ==> trimmed(s) == s,
        s.len() == 0 ==> trimmed(s) == s,
{
    if is_space(c) {
        assert((seq![c] + s).drop_first() =~= s);
        assert(strip_front(seq![c] + s, Margin::Space) == strip_front(s, Margin::Space));
        lemma_strip_pushed(s, c);
    }
}

proof fn lemma_strip_pushed(s: Seq<char>, c: char)
    requires
        is_space(c),
    ensures
        strip_back(strip_front(s.push(c), Margin::Space), Margin::Space) == strip_back(
            strip_front(s, Margin::Space),
            Margin::Space,
        ),
    decreases s.len(),
{
    let m = Margin::Space;
    let longer = s.push(c);
    if s.len() == 0 {
        assert(longer.drop_first() =~= Seq::<char>::empty());
        assert(strip_front(longer, m) == strip_front(longer.drop_first(), m));
        assert(strip_front(Seq::<char>::empty(), m) == Seq::<char>::empty());
        assert(s =~= Seq::<char>::empty());
    } else if in_margin(m, s[0]) {
        assert(longer[0] == s[0]);
        assert(longer.drop_first() =~= s.drop_first().push(c));
        lemma_strip_pushed(s.drop_first(), c);
    } else {
        assert(longer[0] == s[0]);
        assert(longer.drop_last() =~= s);
    }
}

/// A text is split in two at the first or at the last occurrence of a character, which is neither in
/// the one half nor in the other; one without it is not split.
pub proof fn law_texts_are_split_in_two(front: Seq<char>, c: char, back: Seq<char>)
    ensures
        !front.contains(c) ==> split_first(front + seq![c] + back, c) == Some(
            (front, back),
        ),
        !back.contains(c) ==> split_last(front + seq![c] + back, c) == Some((front, back)),
        !front.contains(c) ==> split_first(front, c) is None && split_last(front, c)
            is None,
{
    if !front.contains(c) {
        lemma_split_at_first(front, c, back);
        lemma_none(front, c);
    }
    if !back.contains(c) {
        lemma_last(front, c, back);
        let s = front + seq![c] + back;
        assert(s.take(front.len() as int) =~= front);
        assert(s.skip((front.len() + 1) as int) =~= back);
    }
}

proof fn lemma_none(s: Seq<char>, c: char)
    requires
        !s.contains(c),
    ensures
        first_position(s, c) == s.len(),
        last_position(s, c) == -1,
    decreases s.len(),
{
    if s.len() > 0 {
        assert(s.contains(s[0]));
        assert(s.contains(s.last()));
        assert forall|k: int| 0 <= k < s.len() - 1 implies s.drop_first()[k] != c
            && s.drop_last()[k] != c by {
            assert(s.contains(s[k + 1]));
            assert(s.contains(s[k]));
        }
        lemma_none_first(s.drop_first(), c);
        lemma_none(s.drop_last(), c);
    }
}

proof fn lemma_none_first(s: Seq<char>, c: char)
    requires
        forall|k: int| 0 <= k < s.len() ==> s[k] != c,
    ensures
        first_position(s, c) == s.len(),
    decreases s.len(),
{
    if s.len() > 0 {
        assert forall|k: int| 0 <= k < s.len() - 1 implies s.drop_first()[k] != c by {
            assert(s[k + 1] != c);
        }
        lemma_none_first(s.drop_first(), c);
    }
}

proof fn lemma_last(front: Seq<char>, c: char, back: Seq<char>)
    requires
        !back.contains(c),
    ensures
        last_position(front + seq![c] + back, c) == front.len(),
    decreases back.len(),
{
    let s = front + seq![c] + back;
    if back.len() > 0 {
        assert(s.last() == back.last());
        assert(back.contains(back.last()));
        let shorter = back.drop_last();
        assert(!shorter.contains(c)) by {
            if shorter.contains(c) {
                let k = choose|k: int| 0 <= k < shorter.len() && shorter[k] == c;
                assert(back[k] == c);
            }
        }
        assert(s.drop_last() =~= front + seq![c] + shorter);
        lemma_last(front, c, shorter);
    } else {
        assert(s.last() == c);
    }
}

/// A number is read back as it was written in decimal, where it is not too large.
pub proof fn law_numbers_are_read_back(n: nat, max: nat)
    ensures
        n <= max ==> unsigned(decimal(n), 10, max) == Some(n),
        n > max ==> unsigned(decimal(n), 10, max) is None,
{
    lemma_decimal(n);
    assert(unsigned_digits(decimal(n)) == decimal(n)) by {
        assert(is_digit_of(decimal(n)[0], 10));
    }
}

proof fn lemma_decimal(n: nat)
    ensures
        decimal(n).len() > 0,
        forall|i: int| 0 <= i < decimal(n).len() ==> is_digit_of(#[trigger] decimal(n)[i], 10),
        number_of(decimal(n), 10) == n,
    decreases n,
{
    if n < 10 {
        let one = seq![digit_char(n as int)];
        lemma_digit(n as int);
        assert(one.drop_last() =~= Seq::<char>::empty());
        assert(number_of(one.drop_last(), 10) == 0);
        assert(number_of(one, 10) == n);
    } else {
        lemma_decimal(n / 10);
        lemma_digit((n % 10) as int);
        let longer = decimal(n);
        assert(longer.drop_last() =~= decimal(n / 10));
        assert(longer.last() == digit_char((n % 10) as int));
        assert(number_of(longer, 10) == (n / 10) * 10 + n % 10);
        assert forall|i: int| 0 <= i < longer.len() implies is_digit_of(#[trigger] longer[i], 10) by {
            if i < longer.len() - 1 {
                assert(longer[i] == decimal(n / 10)[i]);
            }
        }
    }
}

proof fn lemma_digit(d: int)
    requires
        0 <= d < 16,
    ensures
        digit_value(digit_char(d)) == Some(d as nat),
{
}

/// Bytes are read back as they were written in hexadecimal.
pub proof fn law_bytes_are_read_back(bytes: Seq<u8>)
    ensures
        is_hex(hex_text(bytes)),
        hex_bytes(hex_text(bytes)) == bytes,
        hex_text(bytes).len() == 2 * bytes.len(),
    decreases bytes.len(),
{
    let text = hex_text(bytes);
    if bytes.len() > 0 {
        let shorter = bytes.drop_last();
        law_bytes_are_read_back(shorter);
        let before = hex_text(shorter);
        let last = bytes.last();
        lemma_digit((last / 16) as int);
        lemma_digit((last % 16) as int);
        assert(text =~= before.push(digit_char((last / 16) as int)).push(
            digit_char((last % 16) as int),
        ));
        assert forall|i: int| 0 <= i < text.len() implies digit_value(#[trigger] text[i]) is Some by {
            if i < before.len() {
                assert(text[i] == before[i]);
            }
        }
        assert(hex_bytes(text) =~= bytes) by {
            assert forall|i: int| 0 <= i < bytes.len() implies hex_bytes(text)[i] == bytes[i] by {
                if i < shorter.len() {
                    assert(text[2 * i] == before[2 * i]);
                    assert(text[2 * i + 1] == before[2 * i + 1]);
                    assert(hex_bytes(before)[i] == shorter[i]);
                } else {
                    assert(last / 16 * 16 + last % 16 == last);
                }
            }
        }
    } else {
        assert(hex_bytes(text) =~= bytes);
    }
}

/// Padding adds blanks behind a text until it is wide enough, and takes nothing away.
pub proof fn law_padding_adds_blanks(s: Seq<char>, width: nat, i: int)
    ensures
        padded(s, width).len() == if s.len() < width {
            width
        } else {
            s.len()
        },
        padded(s, width).take(s.len() as int) == s,
        s.len() <= i < width ==> padded(s, width)[i] == ' ',
{
    assert(padded(s, width).take(s.len() as int) =~= s);
}

/// Joined texts stand one after the other with the separator between each two.
pub proof fn law_joined_texts_follow_each_other(
    a: Seq<Seq<char>>,
    last: Seq<char>,
    sep: Seq<char>,
)
    ensures
        join_texts(Seq::empty(), sep).len() == 0,
        join_texts(seq![last], sep) == last,
        a.len() > 0 ==> join_texts(a.push(last), sep) == join_texts(a, sep) + sep + last,
{
    assert(a.push(last).drop_last() =~= a);
}

/// A text holds another exactly if it can be written with that in the middle.
pub proof fn law_substrings_stand_inside(front: Seq<char>, part: Seq<char>, back: Seq<char>)
    ensures
        has_substring(front + part + back, part),
        has_prefix(part + back, part),
{
    let s = front + part + back;
    assert(s.skip(front.len() as int) =~= part + back);
    assert((part + back).take(part.len() as int) =~= part);
    assert(has_prefix(s.skip(front.len() as int), part));
}

/// The kernel's list of sockets has a heading; every line behind it with four fields or more lists
/// one, and no other line does.
pub proof fn law_kernel_lists_have_a_heading(contents: Seq<char>, line: Seq<char>)
    ensures
        proc_lines(contents).contains(line) <==> exists|i: int|
            1 <= i < lines(contents).len() && #[trigger] lines(contents)[i] == line && words(
                line,
            ).len() >= 4,
{
    let all = lines(contents);
    if all.len() > 0 {
        let rest = all.skip(1);
        lemma_socket_lines(rest, line);
        if proc_lines(contents).contains(line) {
            let i = choose|i: int| 0 <= i < rest.len() && rest[i] == line;
            assert(all[i + 1] == line);
        }
        if exists|i: int| 1 <= i < all.len() && #[trigger] all[i] == line && words(line).len() >= 4 {
            let i = choose|i: int|
                1 <= i < all.len() && #[trigger] all[i] == line && words(line).len() >= 4;
            assert(rest[i - 1] == line);
        }
    }
}

proof fn lemma_socket_lines(all: Seq<Seq<char>>, line: Seq<char>)
    ensures
        socket_lines(all).contains(line) <==> all.contains(line) && words(line).len() >= 4,
    decreases all.len(),
{
    if all.len() > 0 {
        let shorter = all.drop_last();
        lemma_socket_lines(shorter, line);
        let before = socket_lines(shorter);
        let list = socket_lines(all);
        if list.contains(line) {
            let k = choose|k: int| 0 <= k < list.len() && list[k] == line;
            if k < before.len() {
                assert(before[k] == line);
                let i = choose|i: int| 0 <= i < shorter.len() && shorter[i] == line;
                assert(all[i] == line);
            } else {
                assert(all[all.len() - 1] == line);
            }
        }
        if all.contains(line) && words(line).len() >= 4 {
            let i = choose|i: int| 0 <= i < all.len() && all[i] == line;
            if i < shorter.len() {
                assert(shorter[i] == line);
                let k = choose|k: int| 0 <= k < before.len() && before[k] == line;
                assert(list[k] == line);
            } else {
                assert(list[list.len() - 1] == line);
            }
        }
    }
}

/// A row of `netstat` is a line of six fields or more whose first names the protocol and whose
/// fourth is a local endpoint; its fifth is the remote endpoint, if it can be read, and its sixth
/// the state. Each such line is listed, and no other.
pub proof fn law_netstat_rows_are_its_lines(all: Seq<Seq<char>>, row: NetstatRowView)
    ensures
        netstat_rows(all).contains(row) <==> exists|i: int|
            0 <= i < all.len() && is_row(#[trigger] all[i], row),
    decreases all.len(),
{
    let list = netstat_rows(all);
    if all.len() > 0 {
        let shorter = all.drop_last();
        let before = netstat_rows(shorter);
        law_netstat_rows_are_its_lines(shorter, row);
        assert(netstat_row(all.last()) == Some(row) <==> is_row(all.last(), row));
        if list.contains(row) {
            let k = choose|k: int| 0 <= k < list.len() && list[k] == row;
            if k < before.len() {
                assert(before[k] == row);
                let i = choose|i: int| 0 <= i < shorter.len() && is_row(#[trigger] shorter[i], row);
                assert(is_row(all[i], row));
            } else {
                assert(is_row(all[all.len() - 1], row));
            }
        }
        if exists|i: int| 0 <= i < all.len() && is_row(#[trigger] all[i], row) {
            let i = choose|i: int| 0 <= i < all.len() && is_row(#[trigger] all[i], row);
            if i < shorter.len() {
                assert(is_row(shorter[i], row));
                let k = choose|k: int| 0 <= k < before.len() && before[k] == row;
                assert(list[k] == row);
            } else {
                assert(list[list.len() - 1] == row);
            }
        }
    }
}

/// Whether a line of `netstat` is a row.
pub open spec fn is_row(line: Seq<char>, row: NetstatRowView) -> bool {
    let fields = words(line);
    &&& fields.len() >= 6
    &&& has_prefix(fields[0], "tcp"@)
    &&& netstat_endpoint(fields[3]) == Some(row.local)
    &&& row.remote == netstat_endpoint(fields[4])
    &&& row.state == fields[5]
}

/// An endpoint of `netstat` is a host and a port with a dot between them; a star stands for any
/// host.
pub proof fn law_netstat_endpoints_have_a_port(host: Seq<char>, port: nat)
    requires
        port <= 65_535,
    ensures
        netstat_endpoint(host + seq!['.'] + decimal(port)) matches Some(endpoint) && endpoint.port
            == port && (endpoint.host is None <==> host == "*"@),
{
    lemma_decimal(port);
    law_numbers_are_read_back(port, 65_535);
    assert(!decimal(port).contains('.')) by {
        if decimal(port).contains('.') {
            let k = choose|k: int| 0 <= k < decimal(port).len() && decimal(port)[k] == '.';
            assert(is_digit_of(decimal(port)[k], 10));
        }
    }
    law_texts_are_split_in_two(host, '.', decimal(port));
}

/// A failed connection says something of the connection exactly if it timed out, was refused, was
/// reset, was not there, or its address was not.
pub proof fn law_failures_tell_of_the_connection(error: ProbeError)
    ensures
        is_connectivity(error) <==> error == ProbeError::TimedOut || error
            == ProbeError::ConnectionRefused || error == ProbeError::ConnectionReset || error
            == ProbeError::NotConnected || error == ProbeError::AddrNotAvailable,
{
}

/// A new environment holds nothing but what it was made with: nothing is staged, exported, applied
/// or on record, and the paths that belong to the running system are left out of it.
pub proof fn law_new_environments_hold_nothing(
    id: Seq<u8>,
    now: Timestamp,
    name: Seq<char>,
    description: Option<Seq<char>>,
    base_root: Seq<char>,
    policy: EnvironmentPolicy,
    baseline: Seq<CapabilityView>,
)
    ensures
        ({
            let fresh = fresh_environment(
                id,
                now,
                name,
                description,
                base_root,
                policy,
                baseline,
            );
            &&& fresh.id == id
            &&& fresh.name == name
            &&& fresh.description == description
            &&& fresh.base_root == base_root
            &&& fresh.policy == policy
            &&& fresh.baseline == baseline
            &&& fresh.created_at == now
            &&& fresh.updated_at == now
            &&& fresh.status == EnvironmentStatus::Created
            &&& fresh.applied_transaction is None
            &&& fresh.route_candidates.len() == 0
            &&& fresh.deleted_paths.len() == 0
            &&& fresh.tracked_paths.len() == 0
            &&& forall|key: Seq<PathPart>| !#[trigger] fresh.origins.dom().contains(key)
            &&& forall|key: Seq<char>| !#[trigger] fresh.metadata.dom().contains(key)
            &&& forall|path: Seq<char>|
                fresh.ignored_paths.contains(path) <==> path == "proc"@ || path == "sys"@ || path
                    == "dev"@ || path == "run"@ || path == "tmp"@
        }),
{
    let fresh = fresh_environment(id, now, name, description, base_root, policy, baseline);
    let list = fresh.ignored_paths;
    assert(list[0] == "proc"@);
    assert(list[1] == "sys"@);
    assert(list[2] == "dev"@);
    assert(list[3] == "run"@);
    assert(list[4] == "tmp"@);
    assert forall|path: Seq<char>|
        path == "proc"@ || path == "sys"@ || path == "dev"@ || path == "run"@ || path
            == "tmp"@ implies list.contains(path) by {}
}

/// The number of lost circuits counts each of them once, and no other.
pub proof fn law_lost_circuits_are_counted(
    baseline: Seq<CapabilityView>,
    more: CapabilityView,
)
    ensures
        lost_count(Seq::empty()) == 0,
        lost_count(baseline.push(more)) == lost_count(baseline) + if more.validation
            == ValidationState::Lost {
            1nat
        } else {
            0nat
        },
{
    assert(baseline.push(more).drop_last() =~= baseline);
}

/// A host is fit exactly if each check that is required went well, and a report says of each check
/// which it is.
pub proof fn law_reports_tell_failures_apart(checks: Seq<DoctorCheckView>, check: DoctorCheckView)
    ensures
        !is_unfit(checks) <==> forall|i: int|
            0 <= i < checks.len() && (#[trigger] checks[i]).required ==> checks[i].ok,
        check.ok ==> has_prefix(doctor_line(check), "PASS"@),
        !check.ok && check.required ==> has_prefix(doctor_line(check), "FAIL"@),
        !check.ok && !check.required ==> has_prefix(doctor_line(check), "INFO"@),
{
    reveal_strlit("PASS");
    reveal_strlit("FAIL");
    reveal_strlit("INFO");
    assert("PASS"@.len() == 4 && "FAIL"@.len() == 4 && "INFO"@.len() == 4);
    let mark = if check.ok {
        "PASS"@
    } else if check.required {
        "FAIL"@
    } else {
        "INFO"@
    };
    assert(doctor_line(check).take(4) =~= mark);
}

/// The list of what is there has a line for each of it, in order, and says so where there is
/// nothing: environments, changes, and circuits, each with its own lines.
pub proof fn law_reports_list_everything(
    rows: Seq<ListRow>,
    changes: Seq<ChangeView>,
    baseline: Seq<CapabilityView>,
    circuit: CapabilityView,
    with_names: bool,
    i: int,
)
    ensures
        list_lines(rows).len() == rows.len() + 1,
        0 <= i < rows.len() ==> has_prefix(list_lines(rows)[i + 1], rows[i].name@),
        changes.len() > 0 ==> change_lines(changes).len() == changes.len(),
        changes.len() == 0 ==> change_lines(changes).len() == 1,
        0 <= i < changes.len() ==> change_lines(changes)[i] == changes[i].kind.name() + " "@
            + changes[i].path,
        all_circuit_lines(baseline.push(circuit), with_names) == all_circuit_lines(
            baseline,
            with_names,
        ) + circuit_lines(circuit, with_names),
        has_prefix(circuit_lines(circuit, with_names)[0], circuit.id),
        circuit_lines(circuit, with_names).len() == 1 + (if with_names && circuit.name is Some {
            1int
        } else {
            0int
        }) + if circuit.detail is Some {
            1int
        } else {
            0int
        },
{
    assert(baseline.push(circuit).drop_last() =~= baseline);
    let line = circuit_lines(circuit, with_names)[0];
    assert(line.take(circuit.id.len() as int) =~= circuit.id);
    if 0 <= i < rows.len() {
        let row = list_lines(rows)[i + 1];
        assert(row.take(rows[i].name@.len() as int) =~= rows[i].name@);
    }
}

/// A text that is shown ends with what it is about.
pub open spec fn tells(line: Seq<char>, end: Seq<char>) -> bool {
    end.len() <= line.len() && line.skip(line.len() - end.len()) == end
}

/// A plan is shown with all that stands against it, and its last line says that it can be applied
/// exactly if it is allowed. The history says of an apply that it was rolled back exactly if it
/// was.
pub proof fn law_reports_say_what_is_allowed(
    plan: ApplyPlanView,
    transaction: TransactionView,
    i: int,
)
    ensures
        plan_lines(plan).len() == 10 + plan.route_conflicts.len(),
        plan.allowed && plan.guarded_trial ==> tells(
            plan_lines(plan).last(),
            "READY FOR GUARDED TRIAL"@,
        ),
        plan.allowed && !plan.guarded_trial ==> tells(plan_lines(plan).last(), "READY TO APPLY"@),
        !plan.allowed ==> tells(plan_lines(plan).last(), "APPLY BLOCKED"@),
        0 <= i < plan.route_conflicts.len() ==> tells(
            plan_lines(plan)[9 + i],
            plan.route_conflicts[i],
        ),
        tells(plan_lines(plan)[2], decimal(plan.changes.len())),
        tells(plan_lines(plan)[3], decimal(plan.route_candidates.len())),
        tells(plan_lines(plan)[4], decimal(plan.deferred_required.len())),
        tells(plan_lines(plan)[5], decimal(plan.lost_required.len())),
        tells(plan_lines(plan)[6], decimal(plan.unverifiable_required.len())),
        tells(plan_lines(plan)[7], decimal(plan.conflicts.len())),
        tells(plan_lines(plan)[8], decimal(plan.route_conflicts.len())),
        transaction.rolled_back_at is Some ==> tells(transaction_line(transaction), "rolled_back"@),
        transaction.rolled_back_at is None ==> tells(transaction_line(transaction), " applied"@),
{
    let all = plan_lines(plan);
    lemma_tells("Filesystem changes:     "@, decimal(plan.changes.len()));
    lemma_tells("Route changes:          "@, decimal(plan.route_candidates.len()));
    lemma_tells("Post-apply checks:       "@, decimal(plan.deferred_required.len()));
    lemma_tells("Lost required circuits: "@, decimal(plan.lost_required.len()));
    lemma_tells("Unverifiable circuits:  "@, decimal(plan.unverifiable_required.len()));
    lemma_tells("Host conflicts:         "@, decimal(plan.conflicts.len()));
    lemma_tells("Route conflicts:        "@, decimal(plan.route_conflicts.len()));
    lemma_tells("Result:                 "@, "READY FOR GUARDED TRIAL"@);
    lemma_tells("Result:                 "@, "READY TO APPLY"@);
    lemma_tells("Result:                 "@, "APPLY BLOCKED"@);
    if 0 <= i < plan.route_conflicts.len() {
        lemma_tells("  route blocker: "@, plan.route_conflicts[i]);
    }
    let head = padded(transaction.id, 40) + " "@ + padded(transaction.environment, 24);
    reveal_strlit(" ");
    reveal_strlit("applied");
    reveal_strlit(" applied");
    assert(" applied"@ =~= " "@ + "applied"@);
    lemma_tells(head + " "@, "rolled_back"@);
    lemma_tells(head, " "@ + "applied"@);
    assert(head + (" "@ + "applied"@) =~= head + " "@ + "applied"@);
}

proof fn lemma_tells(front: Seq<char>, end: Seq<char>)
    ensures
        tells(front + end, end),
{
    let line = front + end;
    assert(line.skip(line.len() - end.len()) =~= end);
}

/// The parts that pieces stand for, those that stand for none left out.
pub open spec fn solid(raw: Seq<Seq<char>>) -> Seq<PathPart>
    decreases raw.len(),
{
    if raw.len() == 0 {
        Seq::empty()
    } else if is_blank_piece(raw.last()) {
        solid(raw.drop_last())
    } else if raw.last() == ".."@ {
        solid(raw.drop_last()).push(PathPart::Parent)
    } else {
        solid(raw.drop_last()).push(PathPart::Normal(raw.last()))
    }
}

proof fn lemma_solid(raw: Seq<Seq<char>>)
    requires
        raw.len() > 0 ==> raw[0] != "."@,
    ensures
        piece_parts(raw) == solid(raw),
    decreases raw.len(),
{
    if raw.len() > 0 {
        lemma_solid(raw.drop_last());
    }
}

proof fn lemma_solid_joins(a: Seq<Seq<char>>, b: Seq<Seq<char>>)
    ensures
        solid(a + b) == solid(a) + solid(b),
    decreases b.len(),
{
    if b.len() == 0 {
        assert(a + b =~= a);
        assert(solid(a) + solid(b) =~= solid(a));
    } else {
        lemma_solid_joins(a, b.drop_last());
        assert((a + b).drop_last() =~= a + b.drop_last());
        assert((a + b).last() == b.last());
        assert(solid(a + b) =~= solid(a) + solid(b));
    }
}

/// Whether no piece holds a slash.
spec fn are_whole(raw: Seq<Seq<char>>) -> bool {
    forall|i: int| 0 <= i < raw.len() ==> is_whole(#[trigger] raw[i], Separator::Char('/'))
}

proof fn lemma_front_dropped(raw: Seq<Seq<char>>)
    ensures
        solid(drop_blank_front(raw)) == solid(raw),
        drop_blank_front(raw).len() > 0 ==> !is_blank_piece(drop_blank_front(raw)[0]),
        are_whole(raw) ==> are_whole(drop_blank_front(raw)),
    decreases raw.len(),
{
    if raw.len() > 0 && is_blank_piece(raw[0]) {
        let rest = raw.drop_first();
        if are_whole(raw) {
            assert forall|i: int| 0 <= i < rest.len() implies is_whole(
                #[trigger] rest[i],
                Separator::Char('/'),
            ) by {
                assert(rest[i] == raw[i + 1]);
            }
        }
        lemma_front_dropped(rest);
        let one = seq![raw[0]];
        assert(one + rest =~= raw);
        lemma_solid_joins(one, rest);
        assert(one.drop_last() =~= Seq::empty());
        assert(one.last() == raw[0]);
        assert(solid(one) == solid(one.drop_last()));
        assert(solid(one.drop_last()).len() == 0);
        assert(solid(one) + solid(rest) =~= solid(rest));
    }
}

proof fn lemma_back_dropped(raw: Seq<Seq<char>>)
    ensures
        solid(drop_blank_back(raw)) == solid(raw),
        drop_blank_back(raw).len() > 0 ==> raw.len() > 0 && drop_blank_back(raw)[0] == raw[0],
        are_whole(raw) ==> are_whole(drop_blank_back(raw)),
    decreases raw.len(),
{
    if raw.len() > 0 && is_blank_piece(raw.last()) {
        let rest = raw.drop_last();
        if are_whole(raw) {
            assert forall|i: int| 0 <= i < rest.len() implies is_whole(
                #[trigger] rest[i],
                Separator::Char('/'),
            ) by {
                assert(rest[i] == raw[i]);
            }
        }
        lemma_back_dropped(rest);
    }
}

proof fn lemma_pieces_are_whole(s: Seq<char>)
    ensures
        are_whole(pieces(s, Separator::Char('/'))),
        pieces(s, Separator::Char('/')).len() > 0,
    decreases s.len(),
{
    let sep = Separator::Char('/');
    if s.len() > 0 {
        lemma_pieces_are_whole(s.drop_last());
        let before = pieces(s.drop_last(), sep);
        assert forall|i: int| 0 <= i < pieces(s, sep).len() implies is_whole(
            #[trigger] pieces(s, sep)[i],
            sep,
        ) by {
            if i < before.len() {
                assert(is_whole(before[i], sep));
            }
        }
    }
}

proof fn lemma_joined_pieces(list: Seq<Seq<char>>)
    requires
        list.len() > 0,
        are_whole(list),
    ensures
        pieces(join_texts(list, "/"@), Separator::Char('/')) == list,
    decreases list.len(),
{
    let sep = Separator::Char('/');
    reveal_strlit("/");
    assert(is_whole(list[list.len() - 1], sep));
    law_texts_are_split_at_separators(list.last(), '/', Seq::empty(), sep);
    if list.len() == 1 {
        assert(list =~= seq![list[0]]);
    } else {
        let rest = list.drop_last();
        assert forall|i: int| 0 <= i < rest.len() implies is_whole(#[trigger] rest[i], sep) by {
            assert(rest[i] == list[i]);
        }
        lemma_joined_pieces(rest);
        let front = join_texts(rest, "/"@);
        assert(join_texts(list, "/"@) =~= front.push('/') + list.last());
        law_texts_are_split_at_separators(front, '/', list.last(), sep);
        assert(rest + seq![list.last()] =~= list);
    }
}

/// A path that a user gives from the root is the same path below it: it has the same parts but for
/// the root, and does not start there. One that is relative stays as it is.
pub proof fn law_paths_are_taken_below_the_root(path: Seq<char>)
    ensures
        !is_rooted(path) ==> normalized(path) == path,
        is_rooted(path) ==> seq![PathPart::Root] + parts(normalized(path)) == parts(path),
        !is_rooted(normalized(path)),
{
    let sep = Separator::Char('/');
    if is_rooted(path) {
        let raw = pieces(path, sep);
        let front = drop_blank_front(raw);
        let list = drop_blank_back(front);
        let below = join_texts(list, "/"@);
        lemma_pieces_are_whole(path);
        lemma_front_dropped(raw);
        lemma_back_dropped(front);
        assert(raw[0].len() == 0) by {
            let nothing = Seq::<char>::empty();
            law_texts_are_split_at_separators(nothing, '/', path.skip(1), sep);
            assert(nothing.push('/') + path.skip(1) =~= path);
        }
        reveal_strlit(".");
        lemma_solid(raw);
        if list.len() > 0 {
            lemma_joined_pieces(list);
            lemma_solid(list);
            lemma_join_starts(list);
            assert(is_whole(list[0], sep));
            assert(!separates(sep, list[0][0]));
        } else {
            assert(below.len() == 0);
            assert(pieces(below, sep) =~= seq![Seq::<char>::empty()]);
            let one = pieces(below, sep);
            assert(one.drop_last() =~= Seq::empty());
            assert(piece_parts(one) == piece_parts(one.drop_last()));
            assert(solid(list) =~= Seq::empty());
        }
        assert(parts(below) == solid(raw));
    }
}

proof fn lemma_join_starts(list: Seq<Seq<char>>)
    requires
        list.len() > 0,
        list[0].len() > 0,
    ensures
        join_texts(list, "/"@).len() > 0,
        join_texts(list, "/"@)[0] == list[0][0],
    decreases list.len(),
{
    if list.len() > 1 {
        lemma_join_starts(list.drop_last());
    }
}

/// An address as the kernel writes it is read as it was meant: the two halves at the first colon
/// are hexadecimal numbers, and the address is the one whose octets and port they stand for.
pub proof fn law_kernel_addresses_are_read(
    host: Seq<char>,
    port: Seq<char>,
    address: SocketAddress,
    number: nat,
    door: nat,
)
    requires
        !host.contains(':'),
        unsigned(port, 16, 65_535) == Some(door),
    ensures
        unsigned(host, 16, 4_294_967_295) == Some(number) ==> has_kernel_address(
            host + seq![':'] + port,
            false,
        ) && (is_kernel_address(host + seq![':'] + port, false, address) <==> (address
            matches SocketAddress::V4 { octets, port: p } && p == door && octets@ == kernel_v4(
            number,
        ))),
        is_hex(host) ==> has_kernel_address(host + seq![':'] + port, true) && (is_kernel_address(
            host + seq![':'] + port,
            true,
            address,
        ) <==> (address matches SocketAddress::V6 { bytes, port: p } && p == door && bytes@
            == kernel_v6(hex_bytes(host)))),
{
    lemma_split_at_first(host, ':', port);
}

/// A line of the kernel's list has the local address in its second field, the remote one in its
/// third and the state in its fourth, and lists a socket only if all three can be read.
pub proof fn law_kernel_lines_list_sockets(line: Seq<char>, ipv6: bool, socket: ProcSocket)
    ensures
        is_listed_socket(line, ipv6, socket) <==> is_kernel_address(
            words(line)[1],
            ipv6,
            socket.local,
        ) && is_kernel_address(words(line)[2], ipv6, socket.remote) && unsigned(
            words(line)[3],
            16,
            255,
        ) == Some(socket.state as nat),
        is_listed_socket(line, ipv6, socket) ==> reads_socket(line, ipv6),
{
}

/// A version counts as supported from 2.1 on, number by number.
pub proof fn law_versions_count_number_by_number(major: nat, minor: nat)
    requires
        major <= 18_446_744_073_709_551_615,
        minor <= 18_446_744_073_709_551_615,
    ensures
        is_supported(decimal(major) + seq!['.'] + decimal(minor)) <==> major > 2 || (major == 2
            && minor >= 1),
{
    let sep = Separator::Char('.');
    let version = decimal(major) + seq!['.'] + decimal(minor);
    lemma_decimal_is_whole(major);
    lemma_decimal_is_whole(minor);
    law_texts_are_split_at_separators(decimal(major), '.', decimal(minor), sep);
    law_texts_are_split_at_separators(decimal(minor), '.', Seq::empty(), sep);
    assert(decimal(major).push('.') + decimal(minor) =~= version);
    assert(pieces(version, sep) =~= seq![decimal(major), decimal(minor)]);
    law_numbers_are_read_back(major, 18_446_744_073_709_551_615);
    law_numbers_are_read_back(minor, 18_446_744_073_709_551_615);
}

proof fn lemma_decimal_is_whole(n: nat)
    ensures
        is_whole(decimal(n), Separator::Char('.')),
{
    lemma_decimal(n);
    assert forall|i: int| 0 <= i < decimal(n).len() implies !separates(
        Separator::Char('.'),
        #[trigger] decimal(n)[i],
    ) by {
        assert(is_digit_of(decimal(n)[i], 10));
    }
}

/// The version in a report is its first run of digits and dots that does not start with a dot.
pub proof fn law_the_first_version_counts(all: Seq<Seq<char>>, i: int)
    requires
        0 <= i < all.len(),
    ensures
        all[i].len() > 0 && all[i][0] != '.' && (forall|k: int|
            0 <= k < i ==> (#[trigger] all[k]).len() == 0 || all[k][0] == '.') ==> first_version(
            all,
        ) == Some(all[i]),
        (forall|k: int|
            0 <= k < all.len() ==> (#[trigger] all[k]).len() == 0 || all[k][0] == '.')
            ==> first_version(all) is None,
    decreases all.len(),
{
    let shorter = all.drop_last();
    assert forall|k: int| 0 <= k < shorter.len() implies shorter[k] == #[trigger] all[k] by {}
    if i < shorter.len() {
        law_the_first_version_counts(shorter, i);
    } else if shorter.len() > 0 {
        law_the_first_version_counts(shorter, 0);
    }
    assert(all[all.len() - 1] == all.last());
}

/// A version of the tool for virtual machines is accepted exactly if it can be found in its report
/// and is supported.
pub proof fn law_old_versions_are_refused(text: Seq<char>)
    ensures
        lima_refusal(text) is None <==> (first_version(pieces(text, Separator::NotNumeric))
            matches Some(version) && is_supported(version)),
{
}

/// What a table shows has a heading and a line for each of its rows, which starts with what the row
/// is about; an empty one says so.
pub proof fn law_tables_have_a_line_for_each_row(
    transactions: Seq<TransactionView>,
    candidates: Seq<RouteCandidateView>,
    changes: Seq<LinuxImageChangeView>,
    i: int,
)
    ensures
        history_lines(transactions).len() == transactions.len() + 1,
        0 <= i < transactions.len() ==> has_prefix(
            history_lines(transactions)[i + 1],
            transactions[i].id,
        ),
        candidate_lines(candidates).len() == candidates.len() + 1,
        0 <= i < candidates.len() ==> has_prefix(
            candidate_lines(candidates)[i + 1],
            candidates[i].id,
        ),
        changes.len() > 0 ==> image_change_lines(changes).len() == changes.len(),
        0 <= i < changes.len() ==> tells(image_change_lines(changes)[i], changes[i].path)
            && has_prefix(image_change_lines(changes)[i], changes[i].kind),
{
    if 0 <= i < transactions.len() {
        let line = history_lines(transactions)[i + 1];
        assert(line.take(transactions[i].id.len() as int) =~= transactions[i].id);
    }
    if 0 <= i < candidates.len() {
        let line = candidate_lines(candidates)[i + 1];
        assert(line.take(candidates[i].id.len() as int) =~= candidates[i].id);
    }
    if 0 <= i < changes.len() {
        let line = image_change_lines(changes)[i];
        assert(line.skip(line.len() - changes[i].path.len()) =~= changes[i].path);
        assert(line.take(changes[i].kind.len() as int) =~= changes[i].kind);
    }
}

/// The summary of an environment counts what it holds, and ends with how many circuits are lost.
pub proof fn law_summaries_count(
    environment: EnvironmentView,
    changes: nat,
    runtime: Option<Seq<char>>,
)
    ensures
        ({
            let all = status_lines(environment, changes, runtime);
            &&& tells(all[0], environment.name)
            &&& tells(all[1], environment.status.name())
            &&& tells(all[2], decimal(changes))
            &&& tells(all[3], decimal(environment.baseline.len()))
            &&& tells(all.last(), decimal(lost_count(environment.baseline)))
            &&& runtime matches Some(description) ==> tells(all[4], description) && tells(
                all[5],
                decimal(environment.tracked_paths.len()),
            )
            &&& all.len() == if runtime is Some {
                7nat
            } else {
                5nat
            }
        }),
{
    lemma_tells("Environment: "@, environment.name);
    lemma_tells("State:       "@, environment.status.name());
    lemma_tells("Changes:     "@, decimal(changes));
    lemma_tells("Connections: "@, decimal(environment.baseline.len()));
    lemma_tells("Lost:        "@, decimal(lost_count(environment.baseline)));
    lemma_tells("Tracked:     "@, decimal(environment.tracked_paths.len()));
    if let Some(description) = runtime {
        lemma_tells("Runtime:     "@, description);
    }
}

/// Texts and byte strings are ordered by the first place in which they differ, and what is a part of
/// another comes before it.
pub proof fn law_the_first_difference_decides(
    front: Seq<char>,
    x: char,
    y: char,
    a: Seq<char>,
    b: Seq<char>,
    bytes: Seq<u8>,
    m: u8,
    n: u8,
    c: Seq<u8>,
    d: Seq<u8>,
)
    ensures
        x < y ==> text_before(front + seq![x] + a, front + seq![y] + b) && !text_before(
            front + seq![y] + b,
            front + seq![x] + a,
        ),
        text_before(front, front + seq![x] + a),
        !text_before(front + seq![x] + a, front),
        !text_before(front, front),
        m < n ==> bytes_before(bytes + seq![m] + c, bytes + seq![n] + d) && !bytes_before(
            bytes + seq![n] + d,
            bytes + seq![m] + c,
        ),
        bytes_before(bytes, bytes + seq![m] + c),
        !bytes_before(bytes + seq![m] + c, bytes),
        !bytes_before(bytes, bytes),
{
    let k = front.len() as int;
    let p = front + seq![x] + a;
    let q = front + seq![y] + b;
    lemma_lex_common(char_order(), p, q, k);
    lemma_lex_common(char_order(), q, p, k);
    lemma_lex_common(char_order(), front, p, k);
    lemma_lex_common(char_order(), p, front, k);
    lemma_lex_irreflexive(char_order(), front);
    assert(p.skip(k)[0] == x);
    assert(q.skip(k)[0] == y);
    assert(front.skip(k).len() == 0);
    let l = bytes.len() as int;
    let r = bytes + seq![m] + c;
    let s = bytes + seq![n] + d;
    lemma_lex_common(byte_order(), r, s, l);
    lemma_lex_common(byte_order(), s, r, l);
    lemma_lex_common(byte_order(), bytes, r, l);
    lemma_lex_common(byte_order(), r, bytes, l);
    lemma_lex_irreflexive(byte_order(), bytes);
    assert(r.skip(l)[0] == m);
    assert(s.skip(l)[0] == n);
    assert(bytes.skip(l).len() == 0);
}

/// Names are plain: letters and digits of ASCII, hyphens and underscores, and but for identifiers
/// dots; an environment's starts with none. Each is of a limited length and never empty.
pub proof fn law_names_are_plain(name: Seq<char>)
    ensures
        is_valid_name(name) <==> 1 <= name.len() <= 48 && name[0] != '.' && forall|i: int|
            0 <= i < name.len() ==> is_plain(#[trigger] name[i]) || name[i] == '.',
        is_identifier(name) <==> 1 <= name.len() <= 96 && forall|i: int|
            0 <= i < name.len() ==> is_plain(#[trigger] name[i]),
        is_machine_name(name) <==> 1 <= name.len() <= 64 && forall|i: int|
            0 <= i < name.len() ==> is_plain(#[trigger] name[i]) || name[i] == '.',
{
}

/// Whether a character is a letter or a digit of ASCII, a hyphen or an underscore.
pub open spec fn is_plain(c: char) -> bool {
    'a' <= c <= 'z' || 'A' <= c <= 'Z' || '0' <= c <= '9' || c == '-' || c == '_'
}

/// Different sorts of files have different names, so that a change of the sort always shows; the
/// same holds of changes, states and directions.
pub proof fn law_names_tell_apart(
    a: FileKind,
    b: FileKind,
    x: ChangeKind,
    y: ChangeKind,
    s: EnvironmentStatus,
    t: EnvironmentStatus,
    u: ValidationState,
    v: ValidationState,
    d: Direction,
    e: Direction,
)
    ensures
        a.name() == b.name() ==> a == b,
        x.name() == y.name() ==> x == y,
        s.name() == t.name() ==> s == t,
        u.name() == v.name() ==> u == v,
        d.name() == e.name() ==> d == e,
{
    reveal_strlit("file");
    reveal_strlit("symlink");
    reveal_strlit("directory");
    reveal_strlit("char_device");
    reveal_strlit("block_device");
    reveal_strlit("fifo");
    reveal_strlit("socket");
    reveal_strlit("unknown");
    reveal_strlit("added");
    reveal_strlit("modified");
    reveal_strlit("deleted");
    reveal_strlit("type_changed");
    reveal_strlit("created");
    reveal_strlit("running");
    reveal_strlit("ready");
    reveal_strlit("validation_failed");
    reveal_strlit("applied");
    reveal_strlit("discarded");
    reveal_strlit("Pending");
    reveal_strlit("Preserved");
    reveal_strlit("Lost");
    reveal_strlit("Degraded");
    reveal_strlit("New");
    reveal_strlit("Unverifiable");
    reveal_strlit("Ignored");
    reveal_strlit("inbound");
    reveal_strlit("outbound");
    assert("file"@.len() == 4);
    assert("symlink"@.len() == 7);
    assert("directory"@.len() == 9);
    assert("char_device"@.len() == 11);
    assert("block_device"@.len() == 12);
    assert("fifo"@.len() == 4);
    assert("socket"@.len() == 6);
    assert("unknown"@.len() == 7);
    assert("added"@.len() == 5);
    assert("modified"@.len() == 8);
    assert("deleted"@.len() == 7);
    assert("type_changed"@.len() == 12);
    assert("created"@.len() == 7);
    assert("running"@.len() == 7);
    assert("ready"@.len() == 5);
    assert("validation_failed"@.len() == 17);
    assert("applied"@.len() == 7);
    assert("discarded"@.len() == 9);
    assert("Pending"@.len() == 7);
    assert("Preserved"@.len() == 9);
    assert("Lost"@.len() == 4);
    assert("Degraded"@.len() == 8);
    assert("New"@.len() == 3);
    assert("Unverifiable"@.len() == 12);
    assert("Ignored"@.len() == 7);
    assert("inbound"@.len() == 7);
    assert("outbound"@.len() == 8);
    assert("file"@[2] != "fifo"@[2]);
    assert("symlink"@[0] != "unknown"@[0]);
    assert("created"@[0] != "running"@[0]);
    assert("created"@[0] != "applied"@[0]);
    assert("running"@[0] != "applied"@[0]);
    assert("Pending"@[0] != "Ignored"@[0]);
    assert("inbound"@[0] != "unknown"@[0]);
}

} // verus!
