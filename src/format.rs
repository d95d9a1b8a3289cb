use vstd::prelude::*;
use vstd::utf8::{char_is_scalar, encode_scalar, encode_utf8};

verus! {

/// One unit of a compiled date template.
#[derive(PartialEq, Eq, Clone, Copy, Debug)]
pub enum Field<'a> {
    Literal(&'a str),
    Year,
    YearOfCentury,
    MonthName(bool),
    Day,
    WeekdayName(bool),
}

/// The mathematical meaning of a `Field`: literal text as a sequence of characters.
pub enum FieldView {
    Literal(Seq<char>),
    Year,
    YearOfCentury,
    MonthName(bool),
    Day,
    WeekdayName(bool),
}

impl<'a> View for Field<'a> {
    type V = FieldView;

    open spec fn view(&self) -> FieldView {
        match *self {
            Field::Literal(s) => FieldView::Literal(s@),
            Field::Year => FieldView::Year,
            Field::YearOfCentury => FieldView::YearOfCentury,
            Field::MonthName(long) => FieldView::MonthName(long),
            Field::Day => FieldView::Day,
            Field::WeekdayName(long) => FieldView::WeekdayName(long),
        }
    }
}

/// The field that a directive letter selects, if any.
pub open spec fn directive_kind(c: char) -> Option<FieldView> {
    if c == 'Y' {
        Some(FieldView::Year)
    } else if c == 'y' {
        Some(FieldView::YearOfCentury)
    } else if c == 'M' {
        Some(FieldView::MonthName(true))
    } else if c == 'D' {
        Some(FieldView::Day)
    } else if c == 'E' {
        Some(FieldView::WeekdayName(true))
    } else {
        None
    }
}

fn kind_of<'a>(c: char) -> (r: Option<Field<'a>>)
    ensures
        match r {
            Some(f) => directive_kind(c) == Some(f@) && !(f is Literal),
            None => directive_kind(c) is None,
        },
{
    match c {
        'Y' => Some(Field::Year),
        'y' => Some(Field::YearOfCentury),
        'M' => Some(Field::MonthName(true)),
        'D' => Some(Field::Day),
        'E' => Some(Field::WeekdayName(true)),
        _ => None,
    }
}

fn chars_of(s: &str) -> (v: Vec<char>)
    ensures
        v@ == s@,
{
    let mut v: Vec<char> = Vec::new();
    for c in it: s.chars()
        invariant
            v@ == it.seq().take(it.index() as int),
    {
        v.push(c);
    }
    assert(v@ =~= s@);
    v
}

/// Why a template was rejected, with the byte offset of the offending character.
#[derive(PartialEq, Eq, Clone, Copy, Debug, Structural)]
pub enum FormatError {
    /// An unexpected character; the flag says whether it came right after a `:`.
    InvalidChar(char, bool, usize),
    /// A `{` that the input never closed.
    OpenCurlyBrace(usize),
    /// A `}` with no directive open.
    CloseCurlyBrace(usize),
    /// A directive closed as `{}`, with no field named.
    MissingField(usize),
}

/// A compiled date template: fields rendered left to right.
#[derive(PartialEq, Eq, Clone, Debug)]
pub struct DateFormat<'a> {
    pub fields: Vec<Field<'a>>,
}

impl<'a> View for DateFormat<'a> {
    type V = Seq<FieldView>;

    open spec fn view(&self) -> Seq<FieldView> {
        self.fields@.map_values(|f: Field<'a>| f@)
    }
}

/// How a padded field sits within its width.
#[derive(PartialEq, Eq, Clone, Copy, Debug, Structural)]
pub enum Alignment {
    Left,
    Centre,
    Right,
}

/// Width and padding settings of a directive. No directive syntax sets them
/// yet, so every directive is read with the empty settings.
#[derive(PartialEq, Eq, Clone, Copy, Debug, Structural)]
pub struct Arguments {
    pub alignment: Option<Alignment>,
    pub width: Option<usize>,
    pub pad_char: Option<char>,
}

impl Arguments {
    /// Settings with nothing chosen.
    pub fn empty() -> (r: Arguments)
        ensures
            r.alignment is None,
            r.width is None,
            r.pad_char is None,
    {
        Arguments { alignment: None, width: None, pad_char: None }
    }

    /// Whether nothing is chosen.
    pub fn is_empty(&self) -> (r: bool)
        ensures
            r == (self.alignment is None && self.width is None && self.pad_char is None),
    {
        self.alignment.is_none() && self.width.is_none() && self.pad_char.is_none()
    }
}

/// Number of bytes in the UTF-8 encoding of `c`.
pub open spec fn utf8_width(c: char) -> int {
    if (c as u32) <= 0x7F {
        1
    } else if (c as u32) <= 0x7FF {
        2
    } else if (c as u32) <= 0xFFFF {
        3
    } else {
        4
    }
}

/// Byte offset of the character at index `i` of `s`.
pub open spec fn byte_offset(s: Seq<char>, i: int) -> usize {
    encode_utf8(s.take(i)).len() as usize
}

/// Outcome of the directive whose `{` stands at index `i` of `s`.
pub open spec fn directive_at(s: Seq<char>, i: int) -> Result<FieldView, FormatError> {
    let unclosed = FormatError::OpenCurlyBrace(byte_offset(s, i));
    if i + 1 >= s.len() {
        Err(unclosed)
    } else if s[i + 1] == '}' {
        Err(FormatError::MissingField(byte_offset(s, i)))
    } else if s[i + 1] != ':' {
        Err(FormatError::InvalidChar(s[i + 1], false, byte_offset(s, i + 1)))
    } else if i + 2 >= s.len() {
        Err(unclosed)
    } else if directive_kind(s[i + 2]) is None {
        Err(FormatError::InvalidChar(s[i + 2], true, byte_offset(s, i + 2)))
    } else if i + 3 >= s.len() {
        Err(unclosed)
    } else if s[i + 3] != '}' {
        Err(FormatError::InvalidChar(s[i + 3], false, byte_offset(s, i + 3)))
    } else {
        Ok(directive_kind(s[i + 2])->Some_0)
    }
}

/// The literal field for the pending run `s[start..end]`, if the run is not empty.
pub open spec fn pending_literal(s: Seq<char>, start: int, end: int) -> Seq<FieldView> {
    if start < end {
        seq![FieldView::Literal(s.subrange(start, end))]
    } else {
        seq![]
    }
}

/// `r` with the fields `p` put in front of its fields, errors unchanged.
pub open spec fn prefixed(
    p: Seq<FieldView>,
    r: Result<Seq<FieldView>, FormatError>,
) -> Result<Seq<FieldView>, FormatError> {
    match r {
        Ok(t) => Ok(p + t),
        Err(e) => Err(e),
    }
}

/// Parse of `s` from index `i` on, with a literal run pending since `start`
/// (none when `start == i`).
pub open spec fn parse_from(s: Seq<char>, start: int, i: int) -> Result<
    Seq<FieldView>,
    FormatError,
>
    decreases s.len() - i,
{
    if i >= s.len() {
        Ok(pending_literal(s, start, s.len() as int))
    } else if s[i] == '{' {
        match directive_at(s, i) {
            Ok(f) => prefixed(pending_literal(s, start, i).push(f), parse_from(s, i + 4, i + 4)),
            Err(e) => Err(e),
        }
    } else if s[i] == '}' {
        Err(FormatError::CloseCurlyBrace(byte_offset(s, i)))
    } else {
        parse_from(s, start, i + 1)
    }
}

/// The fields of template `s`, or the first error in it.
pub open spec fn parsed(s: Seq<char>) -> Result<Seq<FieldView>, FormatError> {
    parse_from(s, 0, 0)
}

proof fn lemma_prefixed_assoc(
    a: Seq<FieldView>,
    b: Seq<FieldView>,
    r: Result<Seq<FieldView>, FormatError>,
)
    ensures
        prefixed(a, prefixed(b, r)) == prefixed(a + b, r),
{
    if let Ok(t) = r {
        assert(a + (b + t) =~= (a + b) + t);
    }
}

proof fn lemma_encode_append(a: Seq<char>, b: Seq<char>)
    ensures
        encode_utf8(a + b) == encode_utf8(a) + encode_utf8(b),
    decreases a.len(),
{
    if a.len() == 0 {
        assert(a + b =~= b);
        assert(encode_utf8(a) + encode_utf8(b) =~= encode_utf8(b));
    } else {
        assert((a + b).drop_first() =~= a.drop_first() + b);
        lemma_encode_append(a.drop_first(), b);
        assert(encode_utf8(a + b) =~= encode_utf8(a) + encode_utf8(b));
    }
}

proof fn lemma_offset_step(s: Seq<char>, i: int)
    requires
        0 <= i < s.len(),
    ensures
        encode_utf8(s.take(i + 1)).len() == encode_utf8(s.take(i)).len() + utf8_width(s[i]),
        encode_utf8(s.take(i + 1)).len() <= encode_utf8(s).len(),
{
    let c = s[i];
    assert(s.take(i + 1) =~= s.take(i) + seq![c]);
    lemma_encode_append(s.take(i), seq![c]);
    char_is_scalar(c);
    assert(seq![c].drop_first() =~= Seq::<char>::empty());
    assert(encode_utf8(Seq::<char>::empty()) =~= Seq::<u8>::empty());
    assert(encode_utf8(seq![c]) == encode_scalar(seq![c][0] as u32) + encode_utf8(seq![c].drop_first()));
    assert(encode_utf8(seq![c]) =~= encode_scalar(c as u32));
    assert(s =~= s.take(i + 1) + s.skip(i + 1));
    lemma_encode_append(s.take(i + 1), s.skip(i + 1));
}

fn char_width(c: char) -> (w: usize)
    ensures
        w == utf8_width(c),
{
    let u = c as u32;
    if u <= 0x7F {
        1
    } else if u <= 0x7FF {
        2
    } else if u <= 0xFFFF {
        3
    } else {
        4
    }
}

/// Reads the directive whose `{` stands at index `i`, at byte offset `pos`.
/// On success also gives the byte offset just past its `}`.
fn parse_directive<'a>(chars: &Vec<char>, i: usize, pos: usize, total: usize) -> (r: Result<
    (Field<'a>, usize),
    FormatError,
>)
    requires
        i < chars@.len(),
        chars@[i as int] == '{',
        pos == encode_utf8(chars@.take(i as int)).len(),
        total == encode_utf8(chars@).len(),
    ensures
        match directive_at(chars@, i as int) {
            Ok(f) => {
                &&& r is Ok
                &&& r->Ok_0.0@ == f
                &&& i + 4 <= chars@.len()
                &&& r->Ok_0.1 == encode_utf8(chars@.take(i + 4)).len()
            },
            Err(e) => r == Err::<(Field<'a>, usize), FormatError>(e),
        },
{
    let ghost s = chars@;
    let n = chars.len();
    proof {
        lemma_offset_step(s, i as int);
    }
    let p1 = pos + 1;
    if i + 1 >= n {
        return Err(FormatError::OpenCurlyBrace(pos));
    }
    let c1 = chars[i + 1];
    if c1 == '}' {
        return Err(FormatError::MissingField(pos));
    }
    if c1 != ':' {
        return Err(FormatError::InvalidChar(c1, false, p1));
    }
    proof {
        lemma_offset_step(s, i + 1);
    }
    let p2 = p1 + 1;
    if i + 2 >= n {
        return Err(FormatError::OpenCurlyBrace(pos));
    }
    let c2 = chars[i + 2];
    let kind = match kind_of(c2) {
        Some(f) => f,
        None => {
            return Err(FormatError::InvalidChar(c2, true, p2));
        },
    };
    proof {
        lemma_offset_step(s, i + 2);
    }
    let p3 = p2 + char_width(c2);
    if i + 3 >= n {
        return Err(FormatError::OpenCurlyBrace(pos));
    }
    let c3 = chars[i + 3];
    if c3 != '}' {
        return Err(FormatError::InvalidChar(c3, false, p3));
    }
    proof {
        lemma_offset_step(s, i + 3);
    }
    Ok((kind, p3 + 1))
}

/// A month of the Gregorian calendar.
#[derive(PartialEq, Eq, Clone, Copy, Debug, Structural)]
pub enum Month {
    January,
    February,
    March,
    April,
    May,
    June,
    July,
    August,
    September,
    October,
    November,
    December,
}

/// A day of the week.
#[derive(PartialEq, Eq, Clone, Copy, Debug, Structural)]
pub enum Weekday {
    Monday,
    Tuesday,
    Wednesday,
    Thursday,
    Friday,
    Saturday,
    Sunday,
}

/// English name of a month.
pub open spec fn long_month(v: Month) -> Seq<char> {
    match v {
        Month::January => "January"@,
        Month::February => "February"@,
        Month::March => "March"@,
        Month::April => "April"@,
        Month::May => "May"@,
        Month::June => "June"@,
        Month::July => "July"@,
        Month::August => "August"@,
        Month::September => "September"@,
        Month::October => "October"@,
        Month::November => "November"@,
        Month::December => "December"@,
    }
}

/// Three-letter English abbreviation of a month.
pub open spec fn short_month(v: Month) -> Seq<char> {
    match v {
        Month::January => "Jan"@,
        Month::February => "Feb"@,
        Month::March => "Mar"@,
        Month::April => "Apr"@,
        Month::May => "May"@,
        Month::June => "Jun"@,
        Month::July => "Jul"@,
        Month::August => "Aug"@,
        Month::September => "Sep"@,
        Month::October => "Oct"@,
        Month::November => "Nov"@,
        Month::December => "Dec"@,
    }
}

/// English name of a weekday.
pub open spec fn long_weekday(v: Weekday) -> Seq<char> {
    match v {
        Weekday::Monday => "Monday"@,
        Weekday::Tuesday => "Tuesday"@,
        Weekday::Wednesday => "Wednesday"@,
        Weekday::Thursday => "Thursday"@,
        Weekday::Friday => "Friday"@,
        Weekday::Saturday => "Saturday"@,
        Weekday::Sunday => "Sunday"@,
    }
}

/// Three-letter English abbreviation of a weekday.
pub open spec fn short_weekday(v: Weekday) -> Seq<char> {
    match v {
        Weekday::Monday => "Mon"@,
        Weekday::Tuesday => "Tue"@,
        Weekday::Wednesday => "Wed"@,
        Weekday::Thursday => "Thu"@,
        Weekday::Friday => "Fri"@,
        Weekday::Saturday => "Sat"@,
        Weekday::Sunday => "Sun"@,
    }
}

fn long_month_name(v: Month) -> (r: &'static str)
    ensures
        r@ == long_month(v),
{
    match v {
        Month::January => "January",
        Month::February => "February",
        Month::March => "March",
        Month::April => "April",
        Month::May => "May",
        Month::June => "June",
        Month::July => "July",
        Month::August => "August",
        Month::September => "September",
        Month::October => "October",
        Month::November => "November",
        Month::December => "December",
    }
}

fn short_month_name(v: Month) -> (r: &'static str)
    ensures
        r@ == short_month(v),
{
    match v {
        Month::January => "Jan",
        Month::February => "Feb",
        Month::March => "Mar",
        Month::April => "Apr",
        Month::May => "May",
        Month::June => "Jun",
        Month::July => "Jul",
        Month::August => "Aug",
        Month::September => "Sep",
        Month::October => "Oct",
        Month::November => "Nov",
        Month::December => "Dec",
    }
}

fn long_day_name(v: Weekday) -> (r: &'static str)
    ensures
        r@ == long_weekday(v),
{
    match v {
        Weekday::Monday => "Monday",
        Weekday::Tuesday => "Tuesday",
        Weekday::Wednesday => "Wednesday",
        Weekday::Thursday => "Thursday",
        Weekday::Friday => "Friday",
        Weekday::Saturday => "Saturday",
        Weekday::Sunday => "Sunday",
    }
}

fn short_day_name(v: Weekday) -> (r: &'static str)
    ensures
        r@ == short_weekday(v),
{
    match v {
        Weekday::Monday => "Mon",
        Weekday::Tuesday => "Tue",
        Weekday::Wednesday => "Wed",
        Weekday::Thursday => "Thu",
        Weekday::Friday => "Fri",
        Weekday::Saturday => "Sat",
        Weekday::Sunday => "Sun",
    }
}

/// The calendar facts that rendering reads from a date.
#[derive(PartialEq, Eq, Clone, Copy, Debug, Structural)]
pub struct LocalDate {
    pub year: i64,
    pub month: Month,
    pub day: u8,
    pub weekday: Weekday,
}

impl LocalDate {
    /// The year modulo 100, always in `0..100`.
    pub fn year_of_century(&self) -> (r: i64)
        ensures
            r == self.year as int % 100,
            0 <= r < 100,
    {
        let m = self.year % 100;
        if m < 0 {
            m + 100
        } else {
            m
        }
    }
}

/// The decimal digit character for `d`.
pub open spec fn digit(d: nat) -> char {
    "0123456789"@[d as int]
}

/// Decimal digits of `n`, without leading zeros.
pub open spec fn digits(n: nat) -> Seq<char>
    decreases n,
{
    if n < 10 {
        seq![digit(n)]
    } else {
        digits(n / 10).push(digit(n % 10))
    }
}

/// Decimal form of `n`, with a leading `-` when negative.
pub open spec fn decimal(n: int) -> Seq<char> {
    if n < 0 {
        seq!['-'] + digits((-n) as nat)
    } else {
        digits(n as nat)
    }
}

fn push_digits(out: &mut String, n: u64)
    ensures
        final(out)@ == old(out)@ + digits(n as nat),
    decreases n,
{
    if n >= 10 {
        push_digits(out, n / 10);
    }
    let d = (n % 10) as usize;
    proof {
        reveal_strlit("0123456789");
    }
    out.append("0123456789".substring_char(d, d + 1));
    proof {
        assert("0123456789"@.subrange(d as int, d + 1) =~= seq![digit(d as nat)]);
        if n >= 10 {
            assert(digits(n as nat) == digits((n / 10) as nat).push(digit((n % 10) as nat)));
        } else {
            assert(digits(n as nat) == seq![digit(n as nat)]);
        }
    }
}

fn push_decimal(out: &mut String, n: i64)
    ensures
        final(out)@ == old(out)@ + decimal(n as int),
{
    if n < 0 {
        proof {
            reveal_strlit("-");
        }
        out.append("-");
        let magnitude = (-(n as i128)) as u64;
        push_digits(out, magnitude);
        assert(old(out)@ + seq!['-'] + digits(magnitude as nat) =~= old(out)@ + decimal(n as int));
    } else {
        push_digits(out, n as u64);
    }
}

/// Text of one field for the date `d`.
pub open spec fn render_field(f: FieldView, d: LocalDate) -> Seq<char> {
    match f {
        FieldView::Literal(t) => t,
        FieldView::Year => decimal(d.year as int),
        FieldView::YearOfCentury => decimal(d.year as int % 100),
        FieldView::MonthName(long) => if long {
            long_month(d.month)
        } else {
            short_month(d.month)
        },
        FieldView::Day => decimal(d.day as int),
        FieldView::WeekdayName(long) => if long {
            long_weekday(d.weekday)
        } else {
            short_weekday(d.weekday)
        },
    }
}

/// The fields `fs` rendered for `d` and joined left to right.
pub open spec fn render(fs: Seq<FieldView>, d: LocalDate) -> Seq<char>
    decreases fs.len(),
{
    if fs.len() == 0 {
        seq![]
    } else {
        render(fs.drop_last(), d) + render_field(fs.last(), d)
    }
}

impl<'a> Field<'a> {
    /// Appends this field's text for `when` to `out`.
    fn format(self, when: LocalDate, out: &mut String)
        ensures
            final(out)@ == old(out)@ + render_field(self@, when),
    {
        match self {
            Field::Literal(s) => out.append(s),
            Field::Year => push_decimal(out, when.year),
            Field::YearOfCentury => push_decimal(out, when.year_of_century()),
            Field::MonthName(true) => out.append(long_month_name(when.month)),
            Field::MonthName(false) => out.append(short_month_name(when.month)),
            Field::Day => push_decimal(out, when.day as i64),
            Field::WeekdayName(true) => out.append(long_day_name(when.weekday)),
            Field::WeekdayName(false) => out.append(short_day_name(when.weekday)),
        }
    }
}

impl<'a> DateFormat<'a> {
    /// Compiles a template. Literal fields borrow their text from `input`.
    pub fn parse(input: &'a str) -> (r: Result<DateFormat<'a>, FormatError>)
        ensures
            match parsed(input@) {
                Ok(fs) => r is Ok && r->Ok_0@ == fs,
                Err(e) => r == Err::<DateFormat<'a>, FormatError>(e),
            },
    {
        let chars = chars_of(input);
        let ghost s = input@;
        let total = input.as_bytes().len();
        let n = chars.len();
        let mut fields: Vec<Field<'a>> = Vec::new();
        let mut start: usize = 0;
        let mut i: usize = 0;
        let mut pos: usize = 0;
        assert(s.take(0) =~= Seq::<char>::empty());
        while i < n
            invariant
                chars@ == s,
                input@ == s,
                n == s.len(),
                total == encode_utf8(s).len(),
                start <= i <= n,
                pos == encode_utf8(s.take(i as int)).len(),
                parsed(s) == prefixed(
                    fields@.map_values(|f: Field<'a>| f@),
                    parse_from(s, start as int, i as int),
                ),
            decreases n - i,
        {
            let c = chars[i];
            if c == '{' {
                match parse_directive(&chars, i, pos, total) {
                    Ok((f, next)) => {
                        let ghost before = fields@.map_values(|f: Field<'a>| f@);
                        if start < i {
                            fields.push(Field::Literal(input.substring_char(start, i)));
                        }
                        fields.push(f);
                        assert(fields@.map_values(|f: Field<'a>| f@) =~= before + pending_literal(
                            s,
                            start as int,
                            i as int,
                        ).push(f@));
                        proof {
                            lemma_prefixed_assoc(
                                before,
                                pending_literal(s, start as int, i as int).push(f@),
                                parse_from(s, i + 4, i + 4),
                            );
                        }
                        i = i + 4;
                        start = i;
                        pos = next;
                    },
                    Err(e) => {
                        return Err(e);
                    },
                }
            } else if c == '}' {
                return Err(FormatError::CloseCurlyBrace(pos));
            } else {
                proof {
                    lemma_offset_step(s, i as int);
                }
                pos = pos + char_width(c);
                i = i + 1;
            }
        }
        let ghost before = fields@.map_values(|f: Field<'a>| f@);
        if start < n {
            fields.push(Field::Literal(input.substring_char(start, n)));
        }
        assert(fields@.map_values(|f: Field<'a>| f@) =~= before + pending_literal(
            s,
            start as int,
            n as int,
        ));
        assert(parse_from(s, start as int, n as int) == Ok::<Seq<FieldView>, FormatError>(
            pending_literal(s, start as int, n as int),
        ));
        Ok(DateFormat { fields })
    }

    /// Renders this template for the date `when`.
    pub fn format(&self, when: LocalDate) -> (r: String)
        ensures
            r@ == render(self@, when),
    {
        let mut out = String::new();
        let mut k: usize = 0;
        while k < self.fields.len()
            invariant
                k <= self.fields@.len(),
                out@ == render(self@.take(k as int), when),
            decreases self.fields@.len() - k,
        {
            let f = self.fields[k];
            f.format(when, &mut out);
            assert(self@.take(k + 1).drop_last() =~= self@.take(k as int));
            k = k + 1;
        }
        assert(self@.take(k as int) =~= self@);
        out
    }
}

} // verus!
