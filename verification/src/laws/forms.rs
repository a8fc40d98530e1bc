//! What is read out of a form.

use vstd::prelude::*;

use crate::console::upload::{
    boundary_of, file_in, first_name, one_part, part_name, part_text, parts_among, sent_as,
};
use crate::laws::console::law_a_part_is_named_in_quotes;
use crate::laws::reading::law_the_boundary_of_what_is_sent_in_parts;
use crate::laws::texts::law_what_stands_at_the_ends_is_taken_off;
use crate::laws::words::{
    law_a_text_is_found_where_it_first_occurs, law_a_text_is_trimmed_of_the_blanks_round_it,
    occurs_at, printed,
};
use crate::list::lemma_find;
use crate::size::ends;
use crate::text::{begins, cut, cut_at, first_in, trimmed};

verus! {

proof fn lemma_first(s: Seq<char>, sub: Seq<char>, i: int)
    requires
        occurs_at(s, sub, i),
        forall|j: int| 0 <= j < i ==> !#[trigger] occurs_at(s, sub, j),
    ensures
        first_in(s, sub) == Some(i as nat),
{
    law_a_text_is_found_where_it_first_occurs(s, sub);
    match first_in(s, sub) {
        Some(k) => {
            if k < i {
                assert(!occurs_at(s, sub, k as int));
            }
        },
        None => {},
    }
}

/// A part as it stands between two boundaries: its head, a blank line and its content.
pub open spec fn part(head: Seq<char>, content: Seq<char>) -> Seq<char> {
    "\r\n"@ + head + "\r\n\r\n"@ + content + "\r\n"@
}

proof fn lemma_part(head: Seq<char>, content: Seq<char>)
    requires
        head.len() > 0,
        head[0] != '-',
        !head.contains('\r'),
        !head.contains('\n'),
        content.len() > 0 ==> content.last() != '\n',
    ensures
        one_part(part(head, content)) == Some((part_name(head), content)),
{
    reveal_strlit("\r\n");
    reveal_strlit("\n");
    reveal_strlit("\r\n\r\n");
    reveal_strlit("--");
    let nl = "\r\n"@;
    let blank = "\r\n\r\n"@;
    let p = head + blank + content + nl;
    assert(part(head, content) =~= nl + p);
    assert(p[0] == head[0]);
    assert(head[0] != '\r' && head[0] != '\n');
    law_what_stands_at_the_ends_is_taken_off(p, nl);
    law_what_stands_at_the_ends_is_taken_off(p, "\n"@);
    if begins(p, nl) {
        assert(p.take(2)[0] == p[0]);
    }
    if begins(p, "\n"@) {
        assert(p.take(1)[0] == p[0]);
    }
    if begins(p, "--"@) {
        assert(p.take(2)[0] == p[0]);
    }
    assert(part_text(part(head, content)) == p);
    let at = head.len() as int;
    assert(p.subrange(at, at + 4) =~= blank);
    assert forall|j: int| 0 <= j < at implies !#[trigger] occurs_at(p, blank, j) by {
        if occurs_at(p, blank, j) {
            assert(p.subrange(j, j + 4)[0] == p[j]);
            assert(head[j] == '\r');
        }
    }
    lemma_first(p, blank, at);
    assert(p.take(at) =~= head);
    assert(p.skip(at + 4) =~= content + nl);
    law_what_stands_at_the_ends_is_taken_off(content, nl);
    law_what_stands_at_the_ends_is_taken_off(content, "\n"@);
    if ends(content, nl) {
        assert(content.skip(content.len() - 2)[1] == content.last());
    }
    if ends(content, "\n"@) {
        assert(content.skip(content.len() - 1)[0] == content.last());
    }
}

/// The file that a form sends is the content of the part that is named so, between the
/// boundaries, whatever the content is, as long as the boundary is not in it.
pub proof fn law_a_file_is_read_out_of_a_form(
    b: Seq<char>,
    head: Seq<char>,
    content: Seq<char>,
)
    requires
        b.len() > 2,
        begins(b, "--"@),
        !b.contains('\n'),
        printed(b.last()),
        head.len() > 0,
        head[0] != '-',
        !head.contains('\r'),
        !head.contains('\n'),
        part_name(head) == "file"@,
        content.len() > 0 ==> content.last() != '\n',
        forall|j: int|
            0 <= j < part(head, content).len() ==> !#[trigger] occurs_at(
                part(head, content) + b + "--"@,
                b,
                j,
            ),
    ensures
        file_in(b + part(head, content) + b + "--"@) == Some(content),
{
    reveal_strlit("\r\n");
    reveal_strlit("\n");
    reveal_strlit("--");
    let mid = part(head, content);
    let end = "--"@;
    let body = b + mid + b + end;
    let more = head + "\r\n\r\n"@ + content + "\r\n"@ + b + end;
    assert(body =~= b + "\r\n"@ + more);
    law_the_boundary_of_what_is_sent_in_parts(b, more);
    assert(boundary_of(body) == Some(b));
    assert(body.take(2) =~= b.take(2));
    assert(begins(body, end));
    // the pieces between the boundaries
    let r1 = mid + b + end;
    assert(body.subrange(0, b.len() as int) =~= b);
    lemma_first(body, b, 0);
    assert(body.take(0) =~= Seq::<char>::empty());
    assert(body.skip(b.len() as int) =~= r1);
    let at = mid.len() as int;
    assert(r1.subrange(at, at + b.len()) =~= b);
    lemma_first(r1, b, at);
    assert(r1.take(at) =~= mid);
    assert(r1.skip(at + b.len()) =~= end);
    law_a_text_is_found_where_it_first_occurs(end, b);
    assert(first_in(end, b) is None);
    assert(cut_at(end, b) == seq![end]);
    assert(cut_at(r1, b) == seq![mid] + cut_at(end, b));
    let none = Seq::<char>::empty();
    assert(cut_at(body, b) == seq![none] + cut_at(r1, b));
    let pieces = cut_at(body, b);
    assert(pieces =~= seq![none, mid, end]);
    // what each is
    law_what_stands_at_the_ends_is_taken_off(none, "\r\n"@);
    law_what_stands_at_the_ends_is_taken_off(none, "\n"@);
    assert(part_text(none) == none);
    assert(one_part(none) is None);
    lemma_part(head, content);
    law_what_stands_at_the_ends_is_taken_off(end, "\r\n"@);
    law_what_stands_at_the_ends_is_taken_off(end, "\n"@);
    if begins(end, "\r\n"@) {
        assert(end.take(2)[0] == end[0]);
    }
    if begins(end, "\n"@) {
        assert(end.take(1)[0] == end[0]);
    }
    assert(part_text(end) == end);
    assert(end.take(2) =~= end);
    assert(one_part(end) is None);
    let all = parts_among(pieces, 3);
    assert(parts_among(pieces, 0) =~= Seq::empty());
    assert(parts_among(pieces, 1) == parts_among(pieces, 0));
    assert(parts_among(pieces, 2) == parts_among(pieces, 1).push((part_name(head), content)));
    assert(all == parts_among(pieces, 2));
    assert(all =~= seq![("file"@, content)]);
    lemma_find(all, sent_as("file"@), 0);
}

/// A part is named by the piece of its head that says so, behind the first.
pub proof fn law_a_part_is_named_in_its_head(a: Seq<char>, name: Seq<char>)
    requires
        !a.contains(';'),
        !name.contains(';'),
        !begins(trimmed(a), "name=\""@),
    ensures
        part_name(a + "; name=\""@ + name + "\""@) == name,
{
    reveal_strlit("; name=\"");
    reveal_strlit("name=\"");
    reveal_strlit("\"");
    reveal_strlit(" ");
    let said = "name=\""@ + name + "\""@;
    let second = " "@ + said;
    let head = a + "; name=\""@ + name + "\""@;
    assert(head =~= a.push(';') + second);
    assert forall|i: int| 0 <= i < second.len() implies second[i] != ';' by {
        if 7 <= i < 7 + name.len() {
            assert(second[i] == name[i - 7]);
        }
    }
    crate::text::lemma_cut_after(a, ';', second);
    crate::text::lemma_cut_whole(second, ';');
    let pieces = cut(head, ';');
    assert(pieces =~= seq![a, second]);
    law_a_part_is_named_in_quotes(name);
    let none = Seq::<char>::empty();
    law_a_text_is_trimmed_of_the_blanks_round_it(" "@, said, none);
    assert(" "@ + said + none =~= second);
    assert(trimmed(second) == said);
    assert(first_name(pieces, 0) is None);
    assert(first_name(pieces, 1) is None);
    assert(first_name(pieces, 2) == Some(name));
}

} // verus!
