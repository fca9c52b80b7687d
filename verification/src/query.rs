//! Building parameterized `select` statements.
use vstd::prelude::*;
use vstd::std_specs::iter::IteratorSpec;
use vstd::string::*;

verus! {

/// What one character of a search string becomes in a pattern that matches it literally:
/// `%` and `_` get a backslash in front, every other character stays.
pub open spec fn escaped_char(c: char) -> Seq<char> {
    if c == '%' {
        seq!['\\', '%']
    } else if c == '_' {
        seq!['\\', '_']
    } else {
        seq![c]
    }
}

/// The characters of `s`, each escaped, in order.
pub open spec fn pattern_escaped(s: Seq<char>) -> Seq<char>
    decreases s.len(),
{
    if s.len() == 0 {
        Seq::empty()
    } else {
        pattern_escaped(s.drop_last()) + escaped_char(s.last())
    }
}

/// `String::push` of std appends one character.
pub assume_specification[ String::push ](s: &mut String, c: char)
    ensures
        final(s)@ == old(s)@.push(c),
;

pub fn pg_pattern_escape(s: &str) -> (r: String)
    ensures
        r@ == pattern_escaped(s@),
{
    broadcast use {axiom_spec_iter, next_postcondition};

    let n = s.unicode_len();
    let mut res = String::new();
    let mut it = s.chars();
    let mut i: usize = 0;
    assert(s@.skip(0) =~= s@);
    assert(s@.take(0) =~= Seq::<char>::empty());
    loop
        invariant
            n == s@.len(),
            i <= n,
            IteratorSpec::remaining(&it) == s@.skip(i as int),
            res@ == pattern_escaped(s@.take(i as int)),
        ensures
            i == n,
        decreases n - i,
    {
        let ghost rest = IteratorSpec::remaining(&it);
        let ghost before = res@;
        match it.next() {
            Some(c) => {
                assert(rest.len() > 0);
                assert(c == s@[i as int]);
                assert(s@.skip(i as int).drop_first() =~= s@.skip(i + 1));
                assert(s@.take(i + 1).drop_last() =~= s@.take(i as int));
                assert(s@.take(i + 1).last() == c);
                proof {
                    reveal_strlit("\\%");
                    reveal_strlit("\\_");
                }
                if c == '%' {
                    res.append("\\%");
                    assert("\\%"@ =~= escaped_char(c));
                } else if c == '_' {
                    res.append("\\_");
                    assert("\\_"@ =~= escaped_char(c));
                } else {
                    res.push(c);
                    assert(res@ =~= before + escaped_char(c));
                }
                i += 1;
            },
            None => {
                assert(rest.len() == 0);
                break ;
            },
        }
    }
    assert(s@.take(n as int) =~= s@);
    res
}

/// The character that stands for a digit.
pub open spec fn digit_char(d: nat) -> char {
    if d == 0 {
        '0'
    } else if d == 1 {
        '1'
    } else if d == 2 {
        '2'
    } else if d == 3 {
        '3'
    } else if d == 4 {
        '4'
    } else if d == 5 {
        '5'
    } else if d == 6 {
        '6'
    } else if d == 7 {
        '7'
    } else if d == 8 {
        '8'
    } else {
        '9'
    }
}

/// A number in decimal digits, without leading zeros.
pub open spec fn decimal_text(n: nat) -> Seq<char>
    decreases n,
{
    if n < 10 {
        seq![digit_char(n)]
    } else {
        decimal_text(n / 10) + seq![digit_char(n % 10)]
    }
}

fn digit_str(d: u64) -> (r: &'static str)
    requires
        d < 10,
    ensures
        r@ == seq![digit_char(d as nat)],
{
    proof {
        reveal_strlit("0");
        reveal_strlit("1");
        reveal_strlit("2");
        reveal_strlit("3");
        reveal_strlit("4");
        reveal_strlit("5");
        reveal_strlit("6");
        reveal_strlit("7");
        reveal_strlit("8");
        reveal_strlit("9");
    }
    let r = if d == 0 {
        "0"
    } else if d == 1 {
        "1"
    } else if d == 2 {
        "2"
    } else if d == 3 {
        "3"
    } else if d == 4 {
        "4"
    } else if d == 5 {
        "5"
    } else if d == 6 {
        "6"
    } else if d == 7 {
        "7"
    } else if d == 8 {
        "8"
    } else {
        "9"
    };
    assert(r@ =~= seq![digit_char(d as nat)]);
    r
}

/// Writes a number in decimal digits.
pub fn decimal(n: u64) -> (r: String)
    ensures
        r@ == decimal_text(n as nat),
{
    let mut res = String::from_str(digit_str(n % 10));
    let mut m: u64 = n / 10;
    assert(decimal_text(n as nat) =~= (if m > 0 {
        decimal_text(m as nat)
    } else {
        Seq::empty()
    }) + res@);
    while m > 0
        invariant
            decimal_text(n as nat) == (if m > 0 {
                decimal_text(m as nat)
            } else {
                Seq::empty()
            }) + res@,
        decreases m,
    {
        let ghost before = res@;
        res = String::from_str(digit_str(m % 10)).concat(res.as_str());
        let ghost m0 = m;
        m = m / 10;
        assert(decimal_text(n as nat) =~= (if m > 0 {
            decimal_text(m as nat)
        } else {
            Seq::empty()
        }) + res@) by {
            assert(res@ =~= seq![digit_char((m0 % 10) as nat)] + before);
        }
    }
    assert(decimal_text(n as nat) =~= res@);
    res
}

/// The parts put together with `sep` between each two of them.
pub open spec fn joined(parts: Seq<Seq<char>>, sep: Seq<char>) -> Seq<char>
    decreases parts.len(),
{
    if parts.len() == 0 {
        Seq::empty()
    } else if parts.len() == 1 {
        parts[0]
    } else {
        joined(parts.drop_last(), sep) + sep + parts.last()
    }
}

/// What a query builder holds.
pub struct QueryModel<A> {
    pub table: Seq<char>,
    pub selects: Seq<Seq<char>>,
    pub wheres: Seq<Seq<char>>,
    pub order: Option<Seq<char>>,
    pub limit: Option<u32>,
    pub offset: Option<u32>,
    pub args: Seq<A>,
}

/// The `where` part of a statement: the predicates, each in brackets, joined by `and`.
pub open spec fn where_text(wheres: Seq<Seq<char>>) -> Seq<char> {
    if wheres.len() == 0 {
        Seq::empty()
    } else {
        " where ("@ + joined(wheres, ") and ("@) + ")"@
    }
}

/// The part of a statement that follows the predicates: ordering, limit and offset.
pub open spec fn tail_text(order: Option<Seq<char>>, limit: Option<u32>, offset: Option<u32>) -> Seq<
    char,
> {
    (match order {
        Some(o) => " order by "@ + o,
        None => Seq::empty(),
    }) + (match limit {
        Some(n) => " limit "@ + decimal_text(n as nat),
        None => Seq::empty(),
    }) + (match offset {
        Some(n) => " offset "@ + decimal_text(n as nat),
        None => Seq::empty(),
    })
}

/// The statement that a builder with at least one selected column stands for.
pub open spec fn statement_text<A>(q: QueryModel<A>) -> Seq<char> {
    "select "@ + joined(q.selects, ","@) + " from "@ + q.table + where_text(q.wheres) + tail_text(
        q.order,
        q.limit,
        q.offset,
    )
}

/// The placeholder of the `n`-th bound parameter: `$` and the number.
pub open spec fn placeholder(n: nat) -> Seq<char> {
    "$"@ + decimal_text(n)
}

/// Appends to `res` the parts, with `sep` between each two of them.
fn append_joined(res: &mut String, parts: &Vec<String>, sep: &str)
    ensures
        final(res)@ == old(res)@ + joined(parts.deep_view(), sep@),
{
    let ghost start = res@;
    let ghost all = parts.deep_view();
    let mut i: usize = 0;
    assert(all.take(0) =~= Seq::<Seq<char>>::empty());
    assert(res@ =~= start + joined(all.take(0), sep@));
    while i < parts.len()
        invariant
            i <= parts.len(),
            all == parts.deep_view(),
            res@ == start + joined(all.take(i as int), sep@),
        decreases parts.len() - i,
    {
        if i > 0 {
            res.append(sep);
        }
        res.append(parts[i].as_str());
        proof {
            let t = all.take(i + 1);
            assert(t.drop_last() =~= all.take(i as int));
            assert(t.last() == parts[i as int]@);
            assert(joined(all.take(0), sep@) =~= Seq::<char>::empty());
            assert(res@ =~= start + joined(t, sep@));
        }
        i += 1;
    }
    assert(all.take(parts.len() as int) =~= all);
}

/// Appends to `res` the `where` part for the predicates.
fn append_where(res: &mut String, wheres: &Vec<String>)
    ensures
        final(res)@ == old(res)@ + where_text(wheres.deep_view()),
{
    if wheres.len() > 0 {
        res.append(" where (");
        append_joined(res, wheres, ") and (");
        res.append(")");
        assert(res@ =~= old(res)@ + where_text(wheres.deep_view()));
    } else {
        assert(res@ =~= old(res)@ + where_text(wheres.deep_view()));
    }
}

/// Appends to `res` a keyword and a number, where there is a number.
fn append_number(res: &mut String, keyword: &str, number: Option<u32>)
    ensures
        final(res)@ == old(res)@ + (match number {
            Some(n) => keyword@ + decimal_text(n as nat),
            None => Seq::empty(),
        }),
{
    match number {
        Some(n) => {
            res.append(keyword);
            res.append(decimal(n as u64).as_str());
            assert(res@ =~= old(res)@ + (keyword@ + decimal_text(n as nat)));
        },
        None => {
            assert(res@ =~= old(res)@ + Seq::<char>::empty());
        },
    }
}

/// Appends to `res` the ordering, the limit and the offset, as far as they are set.
fn append_tail(res: &mut String, order: &Option<String>, limit: Option<u32>, offset: Option<u32>)
    ensures
        final(res)@ == old(res)@ + tail_text(order.deep_view(), limit, offset),
{
    match order {
        Some(o) => {
            res.append(" order by ");
            res.append(o.as_str());
            assert(res@ =~= old(res)@ + (" order by "@ + o@));
        },
        None => {
            assert(res@ =~= old(res)@ + Seq::<char>::empty());
        },
    }
    append_number(res, " limit ", limit);
    append_number(res, " offset ", offset);
    assert(res@ =~= old(res)@ + tail_text(order.deep_view(), limit, offset));
}

/// Collects the parts of a `select` statement and the parameters bound to it.
pub struct QueryBuilder<A> {
    table: &'static str,
    selects: Vec<String>,
    wheres: Vec<String>,
    pub order: Option<String>,
    limit: Option<u32>,
    offset: Option<u32>,
    args: Vec<A>,
}

impl<A> View for QueryBuilder<A> {
    type V = QueryModel<A>;

    closed spec fn view(&self) -> QueryModel<A> {
        QueryModel {
            table: self.table@,
            selects: self.selects.deep_view(),
            wheres: self.wheres.deep_view(),
            order: self.order.deep_view(),
            limit: self.limit,
            offset: self.offset,
            args: self.args@,
        }
    }
}

impl<A> QueryBuilder<A> {
    pub fn new(table: &'static str) -> (r: Self)
        ensures
            r@ == (QueryModel::<A> {
                table: table@,
                selects: Seq::empty(),
                wheres: Seq::empty(),
                order: None,
                limit: None,
                offset: None,
                args: Seq::empty(),
            }),
    {
        let r = Self {
            table,
            selects: Vec::new(),
            wheres: Vec::new(),
            limit: None,
            offset: None,
            order: None,
            args: Vec::new(),
        };
        assert(r.selects.deep_view() =~= Seq::<Seq<char>>::empty());
        assert(r.wheres.deep_view() =~= Seq::<Seq<char>>::empty());
        r
    }

    pub fn add_select(&mut self, field: String) -> (r: &mut Self)
        ensures
            r@ == (QueryModel { selects: old(self)@.selects.push(field@), ..old(self)@ }),
            *final(self) == *final(r),
    {
        self.selects.push(field);
        assert(self.selects.deep_view() =~= old(self).selects.deep_view().push(field@));
        self
    }

    pub fn add_where_raw(&mut self, clause: String) -> (r: &mut Self)
        ensures
            r@ == (QueryModel { wheres: old(self)@.wheres.push(clause@), ..old(self)@ }),
            *final(self) == *final(r),
    {
        self.wheres.push(clause);
        assert(self.wheres.deep_view() =~= old(self).wheres.deep_view().push(clause@));
        self
    }

    pub fn add_where(&mut self, clause: String) -> (r: &mut Self)
        ensures
            r@ == (QueryModel { wheres: old(self)@.wheres.push(clause@), ..old(self)@ }),
            *final(self) == *final(r),
    {
        self.wheres.push(clause);
        assert(self.wheres.deep_view() =~= old(self).wheres.deep_view().push(clause@));
        self
    }

    /// Binds `value` as the next parameter and returns its placeholder.
    pub fn bind(&mut self, value: A) -> (r: String)
        ensures
            final(self)@ == (QueryModel { args: old(self)@.args.push(value), ..old(self)@ }),
            r@ == placeholder(old(self)@.args.len() + 1),
    {
        self.args.push(value);
        String::from_str("$").concat(decimal(self.args.len() as u64).as_str())
    }

    pub fn order(&mut self, order: String) -> (r: &mut Self)
        ensures
            r@ == (QueryModel { order: Some(order@), ..old(self)@ }),
            *final(self) == *final(r),
    {
        self.order = Some(order);
        self
    }

    pub fn limit(&mut self, limit: u32) -> (r: &mut Self)
        ensures
            r@ == (QueryModel { limit: Some(limit), ..old(self)@ }),
            *final(self) == *final(r),
    {
        self.limit = Some(limit);
        self
    }

    pub fn offset(&mut self, offset: u32) -> (r: &mut Self)
        ensures
            r@ == (QueryModel { offset: Some(offset), ..old(self)@ }),
            *final(self) == *final(r),
    {
        self.offset = Some(offset);
        self
    }

    /// The number of selected columns. A statement needs at least one.
    pub fn select_count(&self) -> (r: usize)
        ensures
            r == self@.selects.len(),
    {
        self.selects.len()
    }

    fn build_stmt(&self) -> (r: String)
        requires
            self@.selects.len() > 0,
        ensures
            r@ == statement_text(self@),
    {
        let mut res = String::from_str("select ");
        append_joined(&mut res, &self.selects, ",");
        res.append(" from ");
        res.append(self.table);
        append_where(&mut res, &self.wheres);
        append_tail(&mut res, &self.order, self.limit, self.offset);
        res
    }

    /// The statement and the parameters bound to it, in the order in which they were bound.
    pub fn build(self) -> (r: (String, Vec<A>))
        requires
            self@.selects.len() > 0,
        ensures
            r.0@ == statement_text(self@),
            r.1@ == self@.args,
    {
        let stmt = self.build_stmt();
        (stmt, self.args)
    }
}

} // verus!
