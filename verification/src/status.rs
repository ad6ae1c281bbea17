//! Parsing a process's status record: line-oriented text in which each
//! line carries a field name, a `":\t"` separator, and a value — or a
//! field name alone. Parsing is total: malformed lines only make the
//! resulting field map smaller, never an error.

use vstd::prelude::*;

use crate::text;
use crate::text::char_pos;
use crate::text::trim;

verus! {

/// The field/value separator `":\t"` stands at position `j` of `l`.
pub open spec fn sep_at(l: Seq<char>, j: int) -> bool {
    &&& 0 <= j
    &&& j + 2 <= l.len()
    &&& l[j] == ':'
    &&& l[j + 1] == '\t'
}

/// Position of the first separator in `l`, or `l.len()` when `l` has
/// none.
pub open spec fn sep_pos(l: Seq<char>) -> nat
    decreases l.len(),
{
    if l.len() < 2 {
        l.len()
    } else if l[0] == ':' && l[1] == '\t' {
        0
    } else {
        (1 + sep_pos(l.drop_first())) as nat
    }
}

/// `sep_pos` finds the first separator, or the length when there is
/// none.
pub proof fn lemma_sep_pos(l: Seq<char>)
    ensures
        sep_pos(l) <= l.len(),
        sep_pos(l) < l.len() ==> sep_at(l, sep_pos(l) as int),
        forall|j: int| 0 <= j < sep_pos(l) ==> !sep_at(l, j),
    decreases l.len(),
{
    if l.len() < 2 {
    } else if l[0] == ':' && l[1] == '\t' {
    } else {
        let t = l.drop_first();
        lemma_sep_pos(t);
        assert forall|j: int| 0 <= j < sep_pos(l) implies !sep_at(l, j) by {
            if j > 0 {
                assert(t[j - 1] == l[j]);
                assert(j - 1 + 2 <= t.len() ==> t[j] == l[j + 1]);
                assert(!sep_at(t, j - 1));
            }
        }
        if sep_pos(l) < l.len() {
            assert(t[sep_pos(t) as int] == l[sep_pos(l) as int]);
            assert(t[sep_pos(t) as int + 1] == l[sep_pos(l) as int + 1]);
        }
    }
}

/// The field name carried by a line: everything before the first
/// separator (the whole line when there is none), trimmed.
pub open spec fn line_key(l: Seq<char>) -> Seq<char> {
    if sep_pos(l) < l.len() {
        trim(l.take(sep_pos(l) as int))
    } else {
        trim(l)
    }
}

/// The field value carried by a line: everything after the first
/// separator, trimmed; a line without a separator carries the empty
/// value.
pub open spec fn line_val(l: Seq<char>) -> Seq<char> {
    if sep_pos(l) < l.len() {
        trim(l.skip(sep_pos(l) as int + 2))
    } else {
        Seq::empty()
    }
}

/// The lines of a text: split at each newline, a trailing newline
/// ending the last line rather than opening an empty one.
pub open spec fn split_lines(s: Seq<char>) -> Seq<Seq<char>>
    decreases s.len(),
{
    if s.len() == 0 {
        Seq::empty()
    } else {
        let p = char_pos(s, '\n');
        if p < s.len() {
            seq![s.take(p as int)] + split_lines(s.skip(p as int + 1))
        } else {
            seq![s]
        }
    }
}

/// The field map described by a sequence of lines: each line's name
/// mapped to its value, a later line overriding an earlier one with
/// the same name.
pub open spec fn fields_of_lines(ls: Seq<Seq<char>>) -> Map<Seq<char>, Seq<char>>
    decreases ls.len(),
{
    if ls.len() == 0 {
        Map::empty()
    } else {
        fields_of_lines(ls.drop_last()).insert(line_key(ls.last()), line_val(ls.last()))
    }
}

/// The field map described by a whole status record.
pub open spec fn status_fields(text: Seq<char>) -> Map<Seq<char>, Seq<char>> {
    fields_of_lines(split_lines(text))
}

/// A line with no field separator still yields its field: the trimmed
/// name, with the empty string as its value.
pub proof fn lemma_line_without_separator(l: Seq<char>)
    requires
        forall|j: int| !sep_at(l, j),
    ensures
        line_key(l) == trim(l),
        line_val(l) == Seq::<char>::empty(),
{
    lemma_sep_pos(l);
}

/// Parsing a one-line record whose line has no separator records the
/// field under its trimmed name with an empty value, rather than
/// dropping it.
pub proof fn lemma_single_line_no_separator(l: Seq<char>)
    requires
        l.len() > 0,
        forall|j: int| 0 <= j < l.len() ==> l[j] != '\n',
        forall|j: int| !sep_at(l, j),
    ensures
        status_fields(l).contains_key(trim(l)),
        status_fields(l)[trim(l)] == Seq::<char>::empty(),
{
    text::lemma_char_pos_from_scan(l, '\n', l.len() as int);
    assert(split_lines(l) =~= seq![l]);
    assert(split_lines(l).drop_last() =~= Seq::<Seq<char>>::empty());
    lemma_line_without_separator(l);
}

/// The mapping an association list denotes: entries applied in order,
/// a later entry overriding an earlier one with the same key.
pub open spec fn assoc_map(es: Seq<(String, String)>) -> Map<Seq<char>, Seq<char>>
    decreases es.len(),
{
    if es.len() == 0 {
        Map::empty()
    } else {
        assoc_map(es.drop_last()).insert(es.last().0@, es.last().1@)
    }
}

/// Entries from `i` on whose keys all differ from `k` do not affect
/// what the association list says of `k`.
proof fn lemma_assoc_map_prefix(es: Seq<(String, String)>, k: Seq<char>, i: int)
    requires
        0 <= i <= es.len(),
        forall|j: int| i <= j < es.len() ==> #[trigger] es[j].0@ != k,
    ensures
        assoc_map(es).contains_key(k) == assoc_map(es.take(i)).contains_key(k),
        assoc_map(es).contains_key(k) ==> assoc_map(es)[k] == assoc_map(es.take(i))[k],
    decreases es.len() - i,
{
    if i == es.len() {
        assert(es.take(i) =~= es);
    } else {
        let t = es.drop_last();
        assert(forall|j: int| i <= j < t.len() ==> #[trigger] t[j].0@ != k);
        lemma_assoc_map_prefix(t, k, i);
        assert(t.take(i) =~= es.take(i));
        assert(es[es.len() - 1].0@ != k);
    }
}

/// The raw field map of one status record: field names mapped to field
/// values, keys unique, the last-seen value winning on a duplicate.
#[derive(Debug)]
pub struct RawFieldMap {
    entries: Vec<(String, String)>,
}

impl View for RawFieldMap {
    type V = Map<Seq<char>, Seq<char>>;

    closed spec fn view(&self) -> Map<Seq<char>, Seq<char>> {
        assoc_map(self.entries@)
    }
}

impl RawFieldMap {
    /// The empty field map.
    pub fn new() -> (m: RawFieldMap)
        ensures
            m@ == Map::<Seq<char>, Seq<char>>::empty(),
    {
        RawFieldMap { entries: Vec::new() }
    }

    /// Records a field, overriding any earlier value under the same
    /// name.
    pub fn insert(&mut self, k: String, v: String)
        ensures
            final(self)@ == old(self)@.insert(k@, v@),
    {
        let ghost k_view = k@;
        let ghost v_view = v@;
        self.entries.push((k, v));
        proof {
            assert(self.entries@.drop_last() =~= old(self).entries@);
            assert(self.entries@.last().0@ == k_view);
            assert(self.entries@.last().1@ == v_view);
        }
    }

    /// Looks a field up by name.
    pub fn get<'a>(&'a self, k: &str) -> (r: Option<&'a String>)
        ensures
            match r {
                Some(v) => self@.contains_key(k@) && v@ == self@[k@],
                None => !self@.contains_key(k@),
            },
    {
        let mut i: usize = self.entries.len();
        loop
            invariant
                0 <= i <= self.entries.len(),
                forall|j: int| i <= j < self.entries@.len() ==> #[trigger] self.entries@[j].0@ != k@,
            ensures
                forall|j: int| 0 <= j < self.entries@.len() ==> #[trigger] self.entries@[j].0@ != k@,
            decreases i,
        {
            if i == 0 {
                break;
            }
            i = i - 1;
            if text::str_eq(self.entries[i].0.as_str(), k) {
                proof {
                    lemma_assoc_map_prefix(self.entries@, k@, i + 1);
                    assert(self.entries@.take(i + 1).drop_last() =~= self.entries@.take(i as int));
                    assert(self.entries@.take(i + 1).last() == self.entries@[i as int]);
                }
                return Some(&self.entries[i].1);
            }
        }
        proof {
            lemma_assoc_map_prefix(self.entries@, k@, 0);
            assert(self.entries@.take(0) =~= Seq::<(String, String)>::empty());
        }
        None
    }

    /// Whether a field of this name was recorded.
    pub fn contains_key(&self, k: &str) -> (r: bool)
        ensures
            r == self@.contains_key(k@),
    {
        self.get(k).is_some()
    }
}

/// Splits one line into its trimmed field name and value.
fn split_line(line: &str) -> (kv: (String, String))
    ensures
        kv.0@ == line_key(line@),
        kv.1@ == line_val(line@),
{
    let n = line.unicode_len();
    let mut p: usize = 0;
    let mut found: bool = false;
    loop
        invariant_except_break
            !found,
        invariant
            n == line@.len(),
            0 <= p <= n,
            forall|j: int| 0 <= j < p ==> !sep_at(line@, j),
        ensures
            0 <= p <= n,
            forall|j: int| 0 <= j < p ==> !sep_at(line@, j),
            found ==> sep_at(line@, p as int),
            !found ==> forall|j: int| !sep_at(line@, j),
        decreases n - p,
    {
        if n < 2 || p > n - 2 {
            proof {
                assert forall|j: int| !sep_at(line@, j) by {
                    if 0 <= j && j + 2 <= n {
                        assert(j < p);
                    }
                }
            }
            break;
        }
        if line.get_char(p) == ':' && line.get_char(p + 1) == '\t' {
            found = true;
            break;
        }
        p = p + 1;
    }
    proof {
        lemma_sep_pos(line@);
        if found {
            assert(sep_pos(line@) == p);
        } else {
            assert(sep_pos(line@) == n);
        }
    }
    if found {
        let key = text::trim_str(line.substring_char(0, p)).to_owned();
        let val = text::trim_str(line.substring_char(p + 2, n)).to_owned();
        proof {
            assert(line@.subrange(0, p as int) =~= line@.take(p as int));
            assert(line@.subrange(p as int + 2, n as int) =~= line@.skip(p as int + 2));
        }
        (key, val)
    } else {
        let key = text::trim_str(line).to_owned();
        (key, String::new())
    }
}

/// Parses a whole status record into its field map. Parsing never
/// fails: a line without a separator yields a field with an empty
/// value, and nothing else is rejected.
pub fn parse_status(text_in: &str) -> (m: RawFieldMap)
    ensures
        m@ == status_fields(text_in@),
{
    let mut m = RawFieldMap::new();
    let ghost mut done: Seq<Seq<char>> = Seq::empty();
    let mut rest: &str = text_in;
    proof {
        assert(done + split_lines(rest@) =~= split_lines(text_in@));
    }
    loop
        invariant
            split_lines(text_in@) == done + split_lines(rest@),
            m@ == fields_of_lines(done),
        ensures
            m@ == fields_of_lines(split_lines(text_in@)),
        decreases rest@.len(),
    {
        let n = rest.unicode_len();
        if n == 0 {
            proof {
                assert(done + split_lines(rest@) =~= done);
            }
            break;
        }
        let mut p: usize = 0;
        loop
            invariant
                n == rest@.len(),
                0 <= p <= n,
                forall|j: int| 0 <= j < p ==> rest@[j] != '\n',
            ensures
                0 <= p <= n,
                forall|j: int| 0 <= j < p ==> rest@[j] != '\n',
                p < n ==> rest@[p as int] == '\n',
            decreases n - p,
        {
            if p >= n {
                break;
            }
            if rest.get_char(p) == '\n' {
                break;
            }
            p = p + 1;
        }
        proof {
            text::lemma_char_pos_from_scan(rest@, '\n', p as int);
        }
        let line = rest.substring_char(0, p);
        proof {
            assert(rest@.subrange(0, p as int) =~= rest@.take(p as int));
        }
        let (k, v) = split_line(line);
        m.insert(k, v);
        let ghost prev_done = done;
        let ghost prev_rest = rest@;
        if p < n {
            proof {
                done = prev_done + seq![prev_rest.take(p as int)];
                assert(done.drop_last() =~= prev_done);
                assert(done.last() == prev_rest.take(p as int));
                assert(split_lines(prev_rest) =~= seq![prev_rest.take(p as int)] + split_lines(
                    prev_rest.skip(p as int + 1),
                ));
                assert(prev_done + split_lines(prev_rest) =~= done + split_lines(
                    prev_rest.skip(p as int + 1),
                ));
            }
            rest = rest.substring_char(p + 1, n);
            proof {
                assert(rest@ =~= prev_rest.skip(p as int + 1));
            }
        } else {
            proof {
                done = prev_done + seq![prev_rest];
                assert(done.drop_last() =~= prev_done);
                assert(done.last() == prev_rest);
                assert(prev_rest.take(p as int) =~= prev_rest);
                assert(split_lines(prev_rest) =~= seq![prev_rest]);
                assert(prev_done + split_lines(prev_rest) =~= done);
            }
            rest = rest.substring_char(n, n);
            proof {
                assert(rest@ =~= Seq::<char>::empty());
                assert(done + split_lines(rest@) =~= done);
            }
        }
    }
    m
}

} // verus!
