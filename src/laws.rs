//! What holds of the parser over whole families of inputs.
use vstd::prelude::*;

use crate::item::{item_text, ItemModel, Partial};
use crate::parser::{
    finished, parse_text, pos_line, position_of, records, records_from, strip_bom, text_from,
    time_range, timed, ParseFault,
};
use crate::text::{
    decimal, decimal2, digit_char, digits_value, index_of, is_digit, lemma_index_of,
    lemma_index_of_arrow, lines_of, split, split_arrow, strip_cr, trim, trim_end, trim_start,
    unsigned_value, white_space, BOM,
};
use crate::time::{time_of, Time, TimeFault};

verus! {

/// Lines of caption text as the parser keeps them: at least one, none
/// empty, none with whitespace at either end, and none holding a line feed.
pub open spec fn caption_lines(cs: Seq<Seq<char>>) -> bool {
    &&& cs.len() > 0
    &&& forall|i: int|
        #![trigger cs[i]]
        0 <= i < cs.len() ==> {
            &&& cs[i].len() > 0
            &&& !white_space(cs[i][0])
            &&& !white_space(cs[i].last())
            &&& forall|j: int| 0 <= j < cs[i].len() ==> cs[i][j] != '\n'
        }
}

/// Lines joined by line feeds.
pub open spec fn join(cs: Seq<Seq<char>>) -> Seq<char>
    decreases cs.len(),
{
    if cs.len() <= 1 {
        if cs.len() == 1 {
            cs[0]
        } else {
            seq![]
        }
    } else {
        cs[0] + seq!['\n'] + join(cs.drop_first())
    }
}

/// The builder after each of `cs` has been added to its text.
pub open spec fn append_all(b: Partial, cs: Seq<Seq<char>>) -> Partial
    decreases cs.len(),
{
    if cs.len() == 0 {
        b
    } else {
        append_all(b.append(cs[0]), cs.drop_first())
    }
}

proof fn lemma_append_all(b: Partial, cs: Seq<Seq<char>>)
    requires
        cs.len() > 0,
    ensures
        append_all(b, cs) == (Partial {
            text: Some(
                match b.text {
                    Some(x) => x + seq!['\n'] + join(cs),
                    None => join(cs),
                },
            ),
            ..b
        }),
    decreases cs.len(),
{
    let rest = cs.drop_first();
    if cs.len() > 1 {
        lemma_append_all(b.append(cs[0]), rest);
        assert(join(cs) == cs[0] + seq!['\n'] + join(rest));
        match b.text {
            Some(x) => {
                assert(x + seq!['\n'] + cs[0] + seq!['\n'] + join(rest) =~= x + seq!['\n']
                    + join(cs));
            },
            None => {},
        }
    } else {
        assert(rest.len() == 0);
        assert(append_all(b.append(cs[0]), rest) == b.append(cs[0]));
        assert(join(cs) == cs[0]);
    }
}

/// Caption lines from `k` up to `m`, where a blank last line or the end
/// stops them, give one finished record.
proof fn lemma_text_run(lines: Seq<Seq<char>>, k: int, m: int, b: Partial)
    requires
        0 <= k <= m <= lines.len(),
        forall|j: int| k <= j < m ==> trim(#[trigger] lines[j]).len() > 0 && trim(lines[j])
            == lines[j],
        m == lines.len() || (m + 1 == lines.len() && trim(lines[m]).len() == 0),
    ensures
        text_from(lines, k, b) == seq![finished(append_all(b, lines.subrange(k, m)))],
    decreases m - k,
{
    if k < m {
        lemma_text_run(lines, k + 1, m, b.append(lines[k]));
        assert(lines.subrange(k, m).drop_first() =~= lines.subrange(k + 1, m));
    } else {
        assert(lines.subrange(k, m).len() == 0);
    }
}

/// A record of a position line, a time-range line and lines of caption text
/// gives that caption, lines joined by line feeds, whether or not a blank
/// line ends it.
pub proof fn lemma_caption_kept(
    pos: Seq<char>,
    range: Seq<char>,
    caption: Seq<Seq<char>>,
    trailing_blank: bool,
)
    requires
        position_of(pos_line(seq![pos], 0)) is Some,
        time_range(range) matches Ok((_, Some(_))),
        caption_lines(caption),
    ensures
        ({
            let lines = seq![pos, range] + caption + if trailing_blank {
                seq![seq![]]
            } else {
                seq![]
            };
            let (start, end) = time_range(range)->Ok_0;
            records(lines) == seq![
                Ok::<ItemModel, ParseFault>(
                    ItemModel {
                        pos: position_of(pos_line(seq![pos], 0))->0,
                        start_time: start,
                        end_time: end->0,
                        text: join(caption),
                    },
                ),
            ]
        }),
{
    let lines = seq![pos, range] + caption + if trailing_blank {
        seq![seq![]]
    } else {
        seq![]
    };
    let (start, end) = time_range(range)->Ok_0;
    let p = position_of(pos_line(seq![pos], 0))->0;
    assert(lines[0] == pos);
    assert(lines[1] == range);
    assert(pos_line(lines, 0) == pos_line(seq![pos], 0));
    let m: int = 2 + caption.len() as int;
    assert forall|j: int| 2 <= j < m implies trim(#[trigger] lines[j]).len() > 0 && trim(
        lines[j],
    ) == lines[j] by {
        assert(lines[j] == caption[j - 2]);
        let c = caption[j - 2];
        assert(trim_start(c) == c);
        assert(trim_end(c) == c);
    }
    if trailing_blank {
        assert(lines[m] == Seq::<char>::empty());
        assert(trim(Seq::<char>::empty()) =~= Seq::<char>::empty());
    }
    lemma_text_run(lines, 2, m, timed(p, start, end));
    assert(lines.subrange(2, m) =~= caption);
    lemma_append_all(timed(p, start, end), caption);
}

/// An empty text holds no records and no error.
pub proof fn lemma_empty_text()
    ensures
        parse_text(seq![]) == Seq::<Result<ItemModel, ParseFault>>::empty(),
{
    assert(crate::text::lines_of(seq![]) =~= Seq::<Seq<char>>::empty());
}

proof fn lemma_same_text_from(a: Seq<Seq<char>>, b: Seq<Seq<char>>, k: int, part: Partial)
    requires
        a.len() == b.len(),
        forall|j: int| 1 <= j < a.len() ==> a[j] == b[j],
        k >= 1,
    ensures
        text_from(a, k, part) == text_from(b, k, part),
    decreases a.len() - k, 0nat,
{
    if k < a.len() {
        if trim(a[k]).len() == 0 {
            if k + 1 < a.len() {
                lemma_same_records_from(a, b, k + 1);
            }
        } else {
            lemma_same_text_from(a, b, k + 1, part.append(trim(a[k])));
        }
    }
}

proof fn lemma_same_records_from(a: Seq<Seq<char>>, b: Seq<Seq<char>>, i: int)
    requires
        a.len() == b.len(),
        forall|j: int| 1 <= j < a.len() ==> a[j] == b[j],
        i >= 1,
    ensures
        records_from(a, i) == records_from(b, i),
    decreases a.len() - i, 1nat,
{
    if i < a.len() {
        match position_of(pos_line(a, i)) {
            None => {},
            Some(p) => if i + 1 < a.len() {
                match time_range(a[i + 1]) {
                    Err(_) => {},
                    Ok((start, end)) => lemma_same_text_from(a, b, i + 2, timed(p, start, end)),
                }
            },
        }
    }
}

proof fn lemma_lines_of_bom(t: Seq<char>)
    requires
        t.len() > 0,
    ensures
        lines_of(t).len() > 0,
        lines_of(seq![BOM] + t) == lines_of(t).update(0, seq![BOM] + lines_of(t)[0]),
        lines_of(t)[0].len() > 0 ==> lines_of(t)[0][0] == t[0],
{
    let s = seq![BOM] + t;
    assert(s.drop_first() =~= t);
    let k: int = index_of(t, '\n') as int;
    assert(index_of(s, '\n') == k + 1);
    crate::text::lemma_index_of_bound(t, '\n');
    if k < t.len() {
        assert(s.take(k + 1) =~= seq![BOM] + t.take(k));
        assert(s.skip(k + 2) =~= t.skip(k + 1));
        assert(strip_cr(seq![BOM] + t.take(k)) =~= seq![BOM] + strip_cr(t.take(k)));
        assert(lines_of(s) =~= lines_of(t).update(0, seq![BOM] + lines_of(t)[0]));
    } else {
        assert(lines_of(s) =~= lines_of(t).update(0, seq![BOM] + lines_of(t)[0]));
    }
}

/// A byte-order mark before a text that does not start with one changes
/// nothing that the parser yields.
pub proof fn lemma_bom_ignored(t: Seq<char>)
    requires
        t.len() > 0,
        t[0] != BOM,
    ensures
        parse_text(seq![BOM] + t) == parse_text(t),
{
    lemma_lines_of_bom(t);
    let a = lines_of(seq![BOM] + t);
    let b = lines_of(t);
    assert(strip_bom(a[0]) =~= b[0]) by {
        assert((seq![BOM] + b[0]).drop_first() =~= b[0]);
    }
    assert(strip_bom(b[0]) == b[0]);
    assert(pos_line(a, 0) == pos_line(b, 0));
    if b.len() > 2 {
        match position_of(pos_line(b, 0)) {
            None => {},
            Some(p) => match time_range(b[1]) {
                Err(_) => {},
                Ok((start, end)) => lemma_same_text_from(a, b, 2, timed(p, start, end)),
            },
        }
    }
}

proof fn lemma_digit(d: nat)
    requires
        d < 10,
    ensures
        is_digit(digit_char(d)),
        digit_char(d) as nat - '0' as nat == d,
{
    assert(d == 0 || d == 1 || d == 2 || d == 3 || d == 4 || d == 5 || d == 6 || d == 7 || d == 8
        || d == 9);
}

proof fn lemma_decimal(n: nat)
    ensures
        decimal(n).len() > 0,
        forall|i: int| 0 <= i < decimal(n).len() ==> is_digit(#[trigger] decimal(n)[i]),
        digits_value(decimal(n)) == n,
    decreases n,
{
    lemma_digit(n % 10);
    if n >= 10 {
        lemma_decimal(n / 10);
        let s = decimal(n / 10).push(digit_char(n % 10));
        assert(s.drop_last() =~= decimal(n / 10));
        assert(s.last() == digit_char(n % 10));
        assert(digits_value(s) == digits_value(decimal(n / 10)) * 10 + (n % 10));
        assert((n / 10) * 10 + n % 10 == n) by (nonlinear_arith);
    } else {
        let s = seq![digit_char(n)];
        assert(s.drop_last() =~= Seq::<char>::empty());
        assert(digits_value(s) == digits_value(Seq::<char>::empty()) * 10 + n);
    }
}

proof fn lemma_decimal2(n: nat)
    ensures
        decimal2(n).len() > 0,
        forall|i: int| 0 <= i < decimal2(n).len() ==> is_digit(#[trigger] decimal2(n)[i]),
        digits_value(decimal2(n)) == n,
{
    lemma_decimal(n);
    if n < 10 {
        lemma_digit(n);
        let s = seq!['0', digit_char(n)];
        assert(s.drop_last() =~= seq!['0']);
        assert(seq!['0'].drop_last() =~= Seq::<char>::empty());
        assert(seq!['0'].last() == '0');
        assert(digits_value(Seq::<char>::empty()) == 0);
        assert(digits_value(seq!['0']) == digits_value(Seq::<char>::empty()) * 10 + 0);
        assert(digits_value(s) == digits_value(seq!['0']) * 10 + n);
    }
}

/// Digits read back as the number they came from.
proof fn lemma_digits_read(s: Seq<char>)
    requires
        s.len() > 0,
        forall|i: int| 0 <= i < s.len() ==> is_digit(#[trigger] s[i]),
    ensures
        unsigned_value(s) == Some(digits_value(s)),
        trim(s) == s,
{
    assert(!white_space(s[0]));
    assert(!white_space(s.last()));
    assert(trim_start(s) == s);
    assert(trim_end(s) == s);
}

proof fn lemma_split_none(a: Seq<char>, c: char)
    requires
        forall|i: int| 0 <= i < a.len() ==> a[i] != c,
    ensures
        split(a, c) == seq![a],
{
    lemma_index_of(a, c, a.len() as int);
}

proof fn lemma_split_cons(a: Seq<char>, c: char, r: Seq<char>)
    requires
        forall|i: int| 0 <= i < a.len() ==> a[i] != c,
    ensures
        split(a + seq![c] + r, c) == seq![a] + split(r, c),
{
    let s = a + seq![c] + r;
    lemma_index_of(s, c, a.len() as int);
    assert(s.take(a.len() as int) =~= a);
    assert(s.skip(a.len() + 1 as int) =~= r);
}

proof fn lemma_arrow_none(a: Seq<char>)
    requires
        forall|i: int| 0 <= i < a.len() ==> a[i] != '-',
    ensures
        split_arrow(a) == seq![a],
{
    lemma_index_of_arrow(a, a.len() as int);
}

proof fn lemma_arrow_cons(a: Seq<char>, r: Seq<char>)
    requires
        forall|i: int| 0 <= i < a.len() ==> a[i] != '-',
    ensures
        split_arrow(a + seq!['-', '-', '>'] + r) == seq![a] + split_arrow(r),
{
    let s = a + seq!['-', '-', '>'] + r;
    lemma_index_of_arrow(s, a.len() as int);
    assert(s.take(a.len() as int) =~= a);
    assert(s.skip(a.len() + 3 as int) =~= r);
}

/// Characters of a time code's text form.
pub open spec fn time_char(c: char) -> bool {
    is_digit(c) || c == ':' || c == ','
}

proof fn lemma_time_text(t: Time)
    ensures
        t.text().len() > 0,
        forall|i: int| 0 <= i < t.text().len() ==> time_char(#[trigger] t.text()[i]),
        is_digit(t.text()[0]),
        is_digit(t.text().last()),
        time_of(t.text()) == Ok::<Time, TimeFault>(t),
{
    let h = decimal2(t.hours as nat);
    let m = decimal2(t.minutes as nat);
    let sec = decimal2(t.seconds as nat);
    let ms = decimal(t.milliseconds as nat);
    lemma_decimal2(t.hours as nat);
    lemma_decimal2(t.minutes as nat);
    lemma_decimal2(t.seconds as nat);
    lemma_decimal(t.milliseconds as nat);
    let clock = h + seq![':'] + m + seq![':'] + sec;
    let text = t.text();
    assert(text =~= clock + seq![','] + ms);
    assert forall|i: int| 0 <= i < text.len() implies time_char(#[trigger] text[i]) by {
        if i < h.len() {
            assert(text[i] == h[i]);
        } else if i < h.len() + 1 + m.len() + 1 + sec.len() + 1 {
        } else {
            assert(text[i] == ms[i - (h.len() + 1 + m.len() + 1 + sec.len() + 1)]);
        }
    }
    assert(text[0] == h[0]);
    assert(text.last() == ms.last());
    assert(!white_space(text[0]));
    assert(!white_space(text.last()));
    assert(trim_start(text) == text);
    assert(trim_end(text) == text);
    assert forall|i: int| 0 <= i < clock.len() implies clock[i] != ',' by {
        if i < h.len() {
            assert(clock[i] == h[i]);
        } else if i < h.len() + 1 {
        } else if i < h.len() + 1 + m.len() {
            assert(clock[i] == m[i - h.len() - 1]);
        } else if i < h.len() + 1 + m.len() + 1 {
        } else {
            assert(clock[i] == sec[i - h.len() - 1 - m.len() - 1]);
        }
    }
    lemma_split_cons(clock, ',', ms);
    lemma_split_none(ms, ',');
    lemma_split_cons(h, ':', m + seq![':'] + sec);
    assert(h + seq![':'] + (m + seq![':'] + sec) =~= clock);
    lemma_split_cons(m, ':', sec);
    lemma_split_none(sec, ':');
    let p = split(trim(text), ',');
    assert(p =~= seq![clock, ms]);
    let c = split(p[0], ':');
    assert(c =~= seq![h, m, sec]);
    lemma_digits_read(h);
    lemma_digits_read(m);
    lemma_digits_read(sec);
    lemma_digits_read(ms);
}

/// The time-range line of a record's text form.
pub open spec fn range_text(start: Time, end: Time) -> Seq<char> {
    start.text() + seq!['-', '-', '>'] + end.text()
}

proof fn lemma_range(start: Time, end: Time)
    ensures
        time_range(range_text(start, end)) == Ok::<(Time, Option<Time>), ParseFault>(
            (start, Some(end)),
        ),
        range_text(start, end).len() > 0,
        range_text(start, end).last() != '\r',
        forall|i: int|
            0 <= i < range_text(start, end).len() ==> #[trigger] range_text(start, end)[i]
                != '\n',
{
    lemma_time_text(start);
    lemma_time_text(end);
    let st = start.text();
    let et = end.text();
    let range = range_text(start, end);
    assert forall|i: int| 0 <= i < range.len() implies #[trigger] range[i] != '\n' by {
        if i < st.len() {
            assert(range[i] == st[i]);
        } else if i < st.len() + 3 {
        } else {
            assert(range[i] == et[i - st.len() - 3]);
        }
    }
    assert(range[0] == st[0]);
    assert(range.last() == et.last());
    assert(trim_start(range) == range);
    assert(trim_end(range) == range);
    assert forall|i: int| 0 <= i < st.len() implies st[i] != '-' by {
        assert(time_char(st[i]));
    }
    assert forall|i: int| 0 <= i < et.len() implies et[i] != '-' by {
        assert(time_char(et[i]));
    }
    lemma_arrow_cons(st, et);
    lemma_arrow_none(et);
    assert(split_arrow(trim(range)) =~= seq![st, et]);
}

proof fn lemma_rendered_lines(item: ItemModel, caption: Seq<Seq<char>>)
    requires
        caption_lines(caption),
        item.text == join(caption),
    ensures
        lines_of(item_text(item) + seq!['\n', '\n']) == seq![
            decimal(item.pos as nat),
            range_text(item.start_time, item.end_time),
        ] + caption + seq![Seq::<char>::empty()],
{
    let d = decimal(item.pos as nat);
    lemma_decimal(item.pos as nat);
    lemma_range(item.start_time, item.end_time);
    let range = range_text(item.start_time, item.end_time);
    let whole = item_text(item) + seq!['\n', '\n'];
    assert(whole =~= d + seq!['\n'] + (range + seq!['\n'] + (join(caption) + seq!['\n', '\n'])));
    lemma_lines_of_cons(d, range + seq!['\n'] + (join(caption) + seq!['\n', '\n']));
    lemma_lines_of_cons(range, join(caption) + seq!['\n', '\n']);
    lemma_lines_of_caption(caption);
    assert(strip_cr(d) == d);
    assert(strip_cr(range) == range);
    assert(lines_of(whole) =~= seq![d, range] + caption + seq![Seq::<char>::empty()]);
}

/// A record rendered to text and read back, followed by a blank line, gives
/// the same record, where its text is lines of caption joined by line feeds.
pub proof fn lemma_round_trip(item: ItemModel, caption: Seq<Seq<char>>)
    requires
        caption_lines(caption),
        item.text == join(caption),
    ensures
        parse_text(item_text(item) + seq!['\n', '\n']) == seq![Ok::<ItemModel, ParseFault>(item)],
{
    let d = decimal(item.pos as nat);
    lemma_decimal(item.pos as nat);
    lemma_digits_read(d);
    lemma_range(item.start_time, item.end_time);
    lemma_rendered_lines(item, caption);
    let range = range_text(item.start_time, item.end_time);
    assert(strip_bom(d) == d);
    assert(pos_line(seq![d], 0) == d);
    assert(position_of(d) == Some(item.pos));
    lemma_caption_kept(d, range, caption, true);
}

proof fn lemma_lines_of_cons(a: Seq<char>, r: Seq<char>)
    requires
        forall|i: int| 0 <= i < a.len() ==> a[i] != '\n',
    ensures
        lines_of(a + seq!['\n'] + r) == seq![strip_cr(a)] + lines_of(r),
{
    let s = a + seq!['\n'] + r;
    lemma_index_of(s, '\n', a.len() as int);
    assert(s.take(a.len() as int) =~= a);
    assert(s.skip(a.len() + 1 as int) =~= r);
}

proof fn lemma_lines_of_caption(cs: Seq<Seq<char>>)
    requires
        caption_lines(cs),
    ensures
        lines_of(join(cs) + seq!['\n', '\n']) == cs + seq![Seq::<char>::empty()],
    decreases cs.len(),
{
    let c = cs[0];
    assert(strip_cr(c) == c) by {
        assert(!white_space(c.last()));
    }
    if cs.len() == 1 {
        assert(join(cs) + seq!['\n', '\n'] =~= c + seq!['\n'] + seq!['\n']);
        lemma_lines_of_cons(c, seq!['\n']);
        lemma_lines_of_cons(Seq::<char>::empty(), Seq::<char>::empty());
        assert(Seq::<char>::empty() + seq!['\n'] + Seq::<char>::empty() =~= seq!['\n']);
        assert(lines_of(Seq::<char>::empty()) =~= Seq::<Seq<char>>::empty());
        assert(strip_cr(Seq::<char>::empty()) =~= Seq::<char>::empty());
        assert(lines_of(join(cs) + seq!['\n', '\n']) =~= cs + seq![Seq::<char>::empty()]);
    } else {
        let rest = cs.drop_first();
        assert(caption_lines(rest)) by {
            assert forall|i: int| 0 <= i < rest.len() implies #[trigger] rest[i] == cs[i + 1] by {}
        }
        lemma_lines_of_caption(rest);
        assert(join(cs) + seq!['\n', '\n'] =~= c + seq!['\n'] + (join(rest) + seq!['\n', '\n']));
        lemma_lines_of_cons(c, join(rest) + seq!['\n', '\n']);
        assert(lines_of(join(cs) + seq!['\n', '\n']) =~= cs + seq![Seq::<char>::empty()]);
    }
}

} // verus!
