//! What holds of splitting and trimming text.

use vstd::prelude::*;

use crate::text;

verus! {

/// Whether `s` is not empty and holds no white space.
pub open spec fn is_solid(s: Seq<char>) -> bool {
    s.len() > 0 && forall|i: int| 0 <= i < s.len() ==> !text::white_space(#[trigger] s[i])
}

/// Whether all of `ws` are solid.
pub open spec fn all_solid(ws: Seq<Seq<char>>) -> bool {
    forall|i: int| 0 <= i < ws.len() ==> is_solid(#[trigger] ws[i])
}

/// The texts `ws` with a space between each two.
pub open spec fn spaced(ws: Seq<Seq<char>>) -> Seq<char>
    decreases ws.len(),
{
    if ws.len() == 0 {
        seq![]
    } else if ws.len() == 1 {
        ws[0]
    } else {
        ws[0] + seq![' '] + spaced(ws.drop_first())
    }
}

/// A line is what stands before a line feed, without a carriage return.
pub proof fn line_before_feed(line: Seq<char>, a: Seq<char>, rest: Seq<char>)
    requires
        forall|i: int| 0 <= i < a.len() ==> #[trigger] a[i] != '\n',
    ensures
        text::lines_after(
            line,
            a + seq!['\n'] + rest,
        ) == seq![text::without_return(line + a)] + text::lines(rest),
    decreases a.len(),
{
    let s = a + seq!['\n'] + rest;
    if a.len() == 0 {
        assert(s[0] == '\n');
        assert(s.drop_first() =~= rest);
        assert(line + a =~= line);
    } else {
        assert(s[0] == a[0]);
        assert(s.drop_first() =~= a.drop_first() + seq!['\n'] + rest);
        assert forall|i: int| 0 <= i < a.drop_first().len() implies #[trigger] a.drop_first()[i]
            != '\n' by {
            assert(a.drop_first()[i] == a[i + 1]);
        }
        line_before_feed(line.push(a[0]), a.drop_first(), rest);
        assert(line.push(a[0]) + a.drop_first() =~= line + a);
    }
}

proof fn run_goes_on(run: Seq<char>, w: Seq<char>, rest: Seq<char>)
    requires
        forall|i: int| 0 <= i < w.len() ==> !text::white_space(#[trigger] w[i]),
    ensures
        text::words_after(run, w + rest) == text::words_after(run + w, rest),
    decreases w.len(),
{
    let s = w + rest;
    if w.len() == 0 {
        assert(s =~= rest);
        assert(run + w =~= run);
    } else {
        assert(s[0] == w[0]);
        assert(s.drop_first() =~= w.drop_first() + rest);
        assert forall|i: int| 0 <= i < w.drop_first().len() implies !text::white_space(
            #[trigger] w.drop_first()[i],
        ) by {
            assert(w.drop_first()[i] == w[i + 1]);
        }
        run_goes_on(run.push(w[0]), w.drop_first(), rest);
        assert(run.push(w[0]) + w.drop_first() =~= run + w);
    }
}

/// Words that are joined by spaces are found again.
pub proof fn words_of_spaced(ws: Seq<Seq<char>>)
    requires
        all_solid(ws),
    ensures
        text::words(spaced(ws)) == ws,
    decreases ws.len(),
{
    let empty = Seq::<char>::empty();
    if ws.len() == 0 {
        assert(text::words(spaced(ws)) =~= ws);
    } else {
        let w = ws[0];
        assert(is_solid(w));
        assert(empty + w =~= w);
        if ws.len() == 1 {
            run_goes_on(empty, w, empty);
            assert(w + empty =~= w);
            assert(text::words_after(w, empty) =~= seq![w]);
            assert(ws =~= seq![w]);
        } else {
            let tail = ws.drop_first();
            let rest = seq![' '] + spaced(tail);
            assert(spaced(ws) =~= w + rest);
            run_goes_on(empty, w, rest);
            assert(rest[0] == ' ');
            assert(rest.drop_first() =~= spaced(tail));
            assert forall|i: int| 0 <= i < tail.len() implies is_solid(#[trigger] tail[i]) by {
                assert(tail[i] == ws[i + 1]);
            }
            words_of_spaced(tail);
            assert(seq![w] + tail =~= ws);
        }
    }
}

/// Words that are joined by spaces hold no other white space, and begin and end with none.
pub proof fn spaced_is_tight(ws: Seq<Seq<char>>)
    requires
        all_solid(ws),
        ws.len() > 0,
    ensures
        spaced(ws).len() > 0,
        spaced(ws)[0] == ws[0][0],
        !text::white_space(spaced(ws)[0]),
        !text::white_space(spaced(ws).last()),
        forall|i: int|
            0 <= i < spaced(ws).len() ==> (#[trigger] spaced(ws)[i] == ' ' || !text::white_space(
                spaced(ws)[i],
            )),
    decreases ws.len(),
{
    let w = ws[0];
    assert(is_solid(w));
    assert(!text::white_space(w[0]));
    assert(!text::white_space(w.last()));
    if ws.len() > 1 {
        let tail = ws.drop_first();
        assert forall|i: int| 0 <= i < tail.len() implies is_solid(#[trigger] tail[i]) by {
            assert(tail[i] == ws[i + 1]);
        }
        spaced_is_tight(tail);
        let s = spaced(ws);
        let t = spaced(tail);
        assert(s =~= w + seq![' '] + t);
        assert(s.last() == t.last());
        assert forall|i: int|
            0 <= i < s.len() implies (#[trigger] s[i] == ' ' || !text::white_space(s[i])) by {
            if i < w.len() {
                assert(s[i] == w[i]);
            } else if i > w.len() {
                assert(s[i] == t[i - w.len() - 1]);
            }
        }
    }
}

/// Text that begins and ends with no white space is not changed by trimming.
pub proof fn tight_text_stays(s: Seq<char>)
    requires
        s.len() > 0,
        !text::white_space(s[0]),
        !text::white_space(s.last()),
    ensures
        text::trim(s) == s,
{
}

/// Trimming keeps the first character of a text that begins with no white space.
pub proof fn trim_keeps_first(s: Seq<char>)
    requires
        s.len() > 0,
        !text::white_space(s[0]),
    ensures
        text::trim(s).len() > 0,
        text::trim(s)[0] == s[0],
{
    trim_end_keeps_first(s);
}

proof fn trim_end_keeps_first(s: Seq<char>)
    requires
        s.len() > 0,
        !text::white_space(s[0]),
    ensures
        text::trim_end(s).len() > 0,
        text::trim_end(s)[0] == s[0],
    decreases s.len(),
{
    if text::white_space(s.last()) {
        assert(s.len() > 1);
        trim_end_keeps_first(s.drop_last());
    }
}

/// A text that does not hold the first character of a mark loses nothing with its removal.
pub proof fn nothing_to_remove(s: Seq<char>, mark: Seq<char>)
    requires
        mark.len() > 0,
        forall|i: int| 0 <= i < s.len() ==> #[trigger] s[i] != mark[0],
    ensures
        text::without_all(s, mark) == s,
    decreases s.len(),
{
    if s.len() > 0 {
        if text::starts_with(s, mark) {
            assert(s.take(mark.len() as int)[0] == mark[0]);
            assert(s[0] == mark[0]);
        }
        assert forall|i: int| 0 <= i < s.drop_first().len() implies #[trigger] s.drop_first()[i]
            != mark[0] by {
            assert(s.drop_first()[i] == s[i + 1]);
        }
        nothing_to_remove(s.drop_first(), mark);
        assert(seq![s[0]] + s.drop_first() =~= s);
    } else {
        assert(text::without_all(s, mark) =~= s);
    }
}

/// Trimming what is trimmed changes nothing.
pub proof fn trim_twice(s: Seq<char>)
    ensures
        text::trim(text::trim(s)) == text::trim(s),
{
    let a = text::trim_start(s);
    trim_start_is_tight(s);
    trim_end_is_tight(a);
    if a.len() > 0 {
        trim_end_keeps_first(a);
        tight_text_stays(text::trim(s));
    } else {
        assert(text::trim(s) =~= a);
    }
}

proof fn trim_start_is_tight(s: Seq<char>)
    ensures
        text::trim_start(s).len() > 0 ==> !text::white_space(text::trim_start(s)[0]),
    decreases s.len(),
{
    if s.len() > 0 && text::white_space(s[0]) {
        trim_start_is_tight(s.drop_first());
    }
}

proof fn trim_end_is_tight(s: Seq<char>)
    ensures
        text::trim_end(s).len() > 0 ==> !text::white_space(text::trim_end(s).last()),
    decreases s.len(),
{
    if s.len() > 0 && text::white_space(s.last()) {
        trim_end_is_tight(s.drop_last());
    }
}

/// What is left of trimming begins and ends with no white space.
pub proof fn trimmed_is_tight(s: Seq<char>)
    ensures
        text::trim(s).len() > 0 ==> !text::white_space(text::trim(s)[0]) && !text::white_space(
            text::trim(s).last(),
        ),
{
    let a = text::trim_start(s);
    trim_start_is_tight(s);
    trim_end_is_tight(a);
    if a.len() > 0 {
        trim_end_keeps_first(a);
    }
}

/// Trimming does not reach past a text that ends with no white space.
pub proof fn trim_end_stops(head: Seq<char>, s: Seq<char>)
    requires
        head.len() > 0,
        !text::white_space(head.last()),
    ensures
        text::trim_end(head + s) == head + text::trim_end(s),
    decreases s.len(),
{
    let all = head + s;
    if s.len() == 0 {
        assert(all =~= head);
        assert(head + text::trim_end(s) =~= head);
    } else {
        assert(all.last() == s.last());
        if text::white_space(s.last()) {
            assert(all.drop_last() =~= head + s.drop_last());
            trim_end_stops(head, s.drop_last());
        }
    }
}

/// White space at the end does not matter to what is left of trimming.
pub proof fn trim_past_white_space(s: Seq<char>, c: char)
    requires
        text::white_space(c),
    ensures
        text::trim(s.push(c)) == text::trim(s),
    decreases s.len(),
{
    let all = s.push(c);
    if s.len() == 0 {
        assert(all.drop_first() =~= s);
    } else if text::white_space(s[0]) {
        assert(all[0] == s[0]);
        assert(all.drop_first() =~= s.drop_first().push(c));
        trim_past_white_space(s.drop_first(), c);
    } else {
        assert(all[0] == s[0]);
        assert(all.drop_last() =~= s);
    }
}

/// Trimming the end first does not matter to what is left of trimming.
pub proof fn trim_after_trim_end(s: Seq<char>)
    ensures
        text::trim(text::trim_end(s)) == text::trim(s),
    decreases s.len(),
{
    if s.len() > 0 && text::white_space(s.last()) {
        trim_after_trim_end(s.drop_last());
        trim_past_white_space(s.drop_last(), s.last());
        assert(s.drop_last().push(s.last()) =~= s);
    }
}

/// What stands before a mark is a piece of its own.
pub proof fn field_before_mark(piece: Seq<char>, a: Seq<char>, rest: Seq<char>, mark: char)
    requires
        forall|i: int| 0 <= i < a.len() ==> #[trigger] a[i] != mark,
    ensures
        text::fields_after(piece, a + seq![mark] + rest, mark) == seq![piece + a] + text::fields(
            rest,
            mark,
        ),
    decreases a.len(),
{
    let s = a + seq![mark] + rest;
    if a.len() == 0 {
        assert(s[0] == mark);
        assert(s.drop_first() =~= rest);
        assert(piece + a =~= piece);
    } else {
        assert(s[0] == a[0]);
        assert(s.drop_first() =~= a.drop_first() + seq![mark] + rest);
        assert forall|i: int| 0 <= i < a.drop_first().len() implies #[trigger] a.drop_first()[i]
            != mark by {
            assert(a.drop_first()[i] == a[i + 1]);
        }
        field_before_mark(piece.push(a[0]), a.drop_first(), rest, mark);
        assert(piece.push(a[0]) + a.drop_first() =~= piece + a);
    }
}

/// A text without marks is one piece.
pub proof fn field_without_mark(piece: Seq<char>, a: Seq<char>, mark: char)
    requires
        forall|i: int| 0 <= i < a.len() ==> #[trigger] a[i] != mark,
    ensures
        text::fields_after(piece, a, mark) == seq![piece + a],
    decreases a.len(),
{
    if a.len() == 0 {
        assert(piece + a =~= piece);
    } else {
        assert forall|i: int| 0 <= i < a.drop_first().len() implies #[trigger] a.drop_first()[i]
            != mark by {
            assert(a.drop_first()[i] == a[i + 1]);
        }
        field_without_mark(piece.push(a[0]), a.drop_first(), mark);
        assert(piece.push(a[0]) + a.drop_first() =~= piece + a);
    }
}

} // verus!
