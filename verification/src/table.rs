//! The invite listing as a table of text.

use comfy_table::presets::NOTHING;
use comfy_table::Table;
use vstd::prelude::*;
use vstd::string::{StrSliceExecFns, StringExecFns};
use crate::invite::Invite;
use crate::snapshot::InviteEntry;
use crate::text::{decimal, push_decimal, texts, to_decimal};

verus! {

/// The text without the spaces at its front.
pub open spec fn strip_front(s: Seq<char>) -> Seq<char>
    decreases s.len(),
{
    if s.len() > 0 && s[0] == ' ' {
        strip_front(s.drop_first())
    } else {
        s
    }
}

/// The text without the spaces at its back.
pub open spec fn strip_back(s: Seq<char>) -> Seq<char>
    decreases s.len(),
{
    if s.len() > 0 && s.last() == ' ' {
        strip_back(s.drop_last())
    } else {
        s
    }
}

/// The text without the spaces at its front and at its back.
pub open spec fn stripped(s: Seq<char>) -> Seq<char> {
    strip_back(strip_front(s))
}

proof fn lemma_strip_front(s: Seq<char>, i: int)
    requires
        0 <= i <= s.len(),
        forall|k: int| 0 <= k < i ==> s[k] == ' ',
        i < s.len() ==> s[i] != ' ',
    ensures
        strip_front(s) == s.subrange(i, s.len() as int),
    decreases i,
{
    if i == 0 {
        assert(s.subrange(0, s.len() as int) =~= s);
    } else {
        let rest = s.drop_first();
        assert forall|k: int| 0 <= k < i - 1 implies rest[k] == ' ' by {
            assert(rest[k] == s[k + 1]);
        }
        lemma_strip_front(rest, i - 1);
        assert(rest.subrange(i - 1, rest.len() as int) =~= s.subrange(i, s.len() as int));
    }
}

proof fn lemma_strip_back(s: Seq<char>, j: int)
    requires
        0 <= j <= s.len(),
        forall|k: int| j <= k < s.len() ==> s[k] == ' ',
        0 < j ==> s[j - 1] != ' ',
    ensures
        strip_back(s) == s.subrange(0, j),
    decreases s.len() - j,
{
    if j == s.len() {
        assert(s.subrange(0, s.len() as int) =~= s);
    } else {
        let rest = s.drop_last();
        lemma_strip_back(rest, j);
        assert(rest.subrange(0, j) =~= s.subrange(0, j));
    }
}

/// The text without the spaces at its front and at its back.
pub fn strip(text: &str) -> (r: String)
    ensures
        r@ == stripped(text@),
{
    let n = text.unicode_len();
    let mut i: usize = 0;
    while i < n && text.get_char(i) == ' '
        invariant
            n == text@.len(),
            i <= n,
            forall|k: int| 0 <= k < i ==> text@[k] == ' ',
        decreases n - i,
    {
        i += 1;
    }
    let mut j: usize = n;
    while j > i && text.get_char(j - 1) == ' '
        invariant
            n == text@.len(),
            i <= j <= n,
            forall|k: int| j <= k < n ==> text@[k] == ' ',
        decreases j,
    {
        j -= 1;
    }
    proof {
        lemma_strip_front(text@, i as int);
        let front = text@.subrange(i as int, n as int);
        assert forall|k: int| j - i <= k < front.len() implies front[k] == ' ' by {
            assert(front[k] == text@[k + i]);
        }
        if j > i {
            assert(front[j - i - 1] == text@[j - 1]);
        }
        lemma_strip_back(front, j - i);
        assert(front.subrange(0, j - i) =~= text@.subrange(i as int, j as int));
    }
    text.substring_char(i, j).to_owned()
}

/// One part of a time span: the number of units with the unit's name, a
/// minus sign in front where the span lies in the past, and nothing at all
/// for zero units.
pub open spec fn span_part(units: nat, past: bool, name: Seq<char>) -> Seq<char> {
    if units == 0 {
        Seq::empty()
    } else if past {
        seq!['-'] + decimal(units) + name
    } else {
        decimal(units) + name
    }
}

/// A time span of `seconds`, written as days, hours, minutes and seconds
/// with one space between the parts. A part of zero units is left empty,
/// its space stays; spaces at the front and at the back are dropped.
pub open spec fn span_text(seconds: int) -> Seq<char> {
    let past = seconds < 0;
    let length = if past {
        (-seconds) as nat
    } else {
        seconds as nat
    };
    stripped(
        span_part(length / 86400, past, "d"@) + " "@ + span_part((length % 86400) / 3600, past, "h"@) + " "@
            + span_part((length % 3600) / 60, past, "min"@) + " "@ + span_part(length % 60, past, "s"@),
    )
}

fn push_span_part(text: &mut String, units: u64, past: bool, name: &str)
    ensures
        final(text)@ == old(text)@ + span_part(units as nat, past, name@),
{
    if units != 0 {
        if past {
            proof {
                reveal_strlit("-");
            }
            text.append("-");
        }
        push_decimal(text, units);
        text.append(name);
        assert(text@ =~= old(text)@ + span_part(units as nat, past, name@));
    } else {
        assert(text@ =~= old(text)@ + span_part(units as nat, past, name@));
    }
}

/// The time left from `now` until `until`, in words such as `6d 23h 59min
/// 58s`.
pub fn time_left(until: i64, now: i64) -> (text: String)
    ensures
        text@ == span_text(until - now),
{
    let past = until < now;
    let length: u64 = if past {
        (now as i128 - until as i128) as u64
    } else {
        (until as i128 - now as i128) as u64
    };
    let mut text = String::new();
    push_span_part(&mut text, length / 86400, past, "d");
    text.append(" ");
    push_span_part(&mut text, (length % 86400) / 3600, past, "h");
    text.append(" ");
    push_span_part(&mut text, (length % 3600) / 60, past, "min");
    text.append(" ");
    push_span_part(&mut text, length % 60, past, "s");
    assert(text@ =~= span_part((length / 86400) as nat, past, "d"@) + " "@ + span_part(
        ((length % 86400) / 3600) as nat,
        past,
        "h"@,
    ) + " "@ + span_part(((length % 3600) / 60) as nat, past, "min"@) + " "@ + span_part(
        (length % 60) as nat,
        past,
        "s"@,
    ));
    strip(text.as_str())
}

/// Ten to the power of `k`.
spec fn pow10(k: nat) -> nat
    decreases k,
{
    if k == 0 {
        1
    } else {
        10 * pow10((k - 1) as nat)
    }
}

proof fn lemma_decimal_len(n: nat, k: nat)
    requires
        k >= 1,
        n < pow10(k),
    ensures
        1 <= decimal(n).len() <= k,
    decreases k,
{
    if n >= 10 {
        assert(k >= 2) by {
            reveal_with_fuel(pow10, 2);
        }
        lemma_decimal_len(n / 10, (k - 1) as nat);
    }
}

/// A 64-bit number has at most twenty decimal digits.
pub proof fn lemma_decimal_fits(n: nat)
    requires
        n <= u64::MAX,
    ensures
        1 <= decimal(n).len() <= 20,
{
    assert(pow10(20) == 100000000000000000000) by {
        reveal_with_fuel(pow10, 21);
    }
    lemma_decimal_len(n, 20);
}

proof fn lemma_strip_front_len(s: Seq<char>)
    ensures
        strip_front(s).len() <= s.len(),
    decreases s.len(),
{
    if s.len() > 0 && s[0] == ' ' {
        lemma_strip_front_len(s.drop_first());
    }
}

proof fn lemma_strip_back_len(s: Seq<char>)
    ensures
        strip_back(s).len() <= s.len(),
    decreases s.len(),
{
    if s.len() > 0 && s.last() == ' ' {
        lemma_strip_back_len(s.drop_last());
    }
}

proof fn lemma_span_part_len(units: nat, past: bool, name: Seq<char>)
    requires
        units <= u64::MAX,
    ensures
        span_part(units, past, name).len() <= 21 + name.len(),
{
    lemma_decimal_fits(units);
}

/// The words for a time span between two timestamps are short.
pub proof fn lemma_span_text_len(seconds: int)
    requires
        -(u64::MAX as int) <= seconds <= u64::MAX as int,
    ensures
        span_text(seconds).len() <= 100,
{
    reveal_strlit("d");
    reveal_strlit("h");
    reveal_strlit("min");
    reveal_strlit("s");
    reveal_strlit(" ");
    let past = seconds < 0;
    let length = if past {
        (-seconds) as nat
    } else {
        seconds as nat
    };
    lemma_span_part_len(length / 86400, past, "d"@);
    lemma_span_part_len((length % 86400) / 3600, past, "h"@);
    lemma_span_part_len((length % 3600) / 60, past, "min"@);
    lemma_span_part_len(length % 60, past, "s"@);
    let joined = span_part(length / 86400, past, "d"@) + " "@ + span_part((length % 86400) / 3600, past, "h"@)
        + " "@ + span_part((length % 3600) / 60, past, "min"@) + " "@ + span_part(length % 60, past, "s"@);
    lemma_strip_front_len(joined);
    lemma_strip_back_len(strip_front(joined));
}

/// The most characters that a cell of a table may hold.
pub const MAX_CELL_CHARS: usize = 20000;

/// Whether every one of the cells is short enough for a table.
pub open spec fn cells_fit(cells: Seq<String>) -> bool {
    forall|i: int| 0 <= i < cells.len() ==> (#[trigger] cells[i])@.len() <= MAX_CELL_CHARS
}

/// The texts of the cells of each of the rows.
pub open spec fn row_texts(rows: Seq<Vec<String>>) -> Seq<Seq<Seq<char>>> {
    Seq::new(rows.len(), |i: int| texts(rows[i]@))
}

/// The text that `comfy_table` renders for a table with this header and
/// these rows, drawn without borders and without separators.
pub uninterp spec fn rendered_table(header: Seq<Seq<char>>, rows: Seq<Seq<Seq<char>>>) -> Seq<char>;

/// Renders a table with `comfy_table`: a new `Table` gets the header
/// (`set_header`), the preset `NOTHING` (`load_preset`) and the rows
/// (`add_rows`), and is turned into text by its `Display` impl.
///
/// The contract claims that the text depends on the header and the rows
/// alone. Cells are kept short because the crate holds a column's width in
/// 16 bits and adds the padding of two columns to it: a character is at
/// most three columns wide, so a cell of `MAX_CELL_CHARS` characters is at
/// most 60 000 columns wide, and with the padding the width stays below
/// 65 536.
#[verifier::external_body]
fn render_table(header: &Vec<String>, rows: &Vec<Vec<String>>) -> (text: String)
    requires
        cells_fit(header@),
        forall|i: int| 0 <= i < rows@.len() ==> cells_fit((#[trigger] rows@[i])@),
    ensures
        text@ == rendered_table(texts(header@), row_texts(rows@)),
{
    let mut table = Table::new();
    table.set_header(header);
    table.load_preset(NOTHING);
    table.add_rows(rows);
    table.to_string()
}

/// How often the invite was used, of how often it can be: `3/5`, or `3/∞`
/// for an invite without a limit.
pub open spec fn uses_text(invite: Invite) -> Seq<char> {
    decimal(invite.uses as nat) + "/"@ + (match invite.max_uses {
        Some(limit) => decimal(limit as nat),
        None => "\u{221E}"@,
    })
}

/// How long the invite is still valid at `now`, or `∞` for an invite that
/// never expires.
pub open spec fn expires_text(invite: Invite, now: i64) -> Seq<char> {
    match invite.max_age {
        Some(until) => span_text(until - now),
        None => "\u{221E}"@,
    }
}

/// The cells of the row for one invite.
pub open spec fn row_text(entry: InviteEntry, display_inviter: bool, now: i64) -> Seq<Seq<char>> {
    if display_inviter {
        seq![
            decimal(entry.invite.inviter as nat),
            entry.code@,
            uses_text(entry.invite),
            expires_text(entry.invite, now),
        ]
    } else {
        seq![entry.code@, uses_text(entry.invite), expires_text(entry.invite, now)]
    }
}

/// The cells of the header.
pub open spec fn header_text(display_inviter: bool) -> Seq<Seq<char>> {
    if display_inviter {
        seq!["Inviter"@, "Invite"@, "Uses"@, "Expires"@]
    } else {
        seq!["Invite"@, "Uses"@, "Expires"@]
    }
}

/// What the list command answers: a table with one row per invite inside a
/// code block, or a sentence if there is no invite to show.
pub open spec fn table_text(invites: Seq<InviteEntry>, display_inviter: bool, member: u64, now: i64) -> Seq<
    char,
> {
    if invites.len() == 0 {
        if display_inviter {
            "<@"@ + decimal(member as nat) + "> has no invites in this guild."@
        } else {
            "You have no invites in this guild."@
        }
    } else {
        "```\n"@ + rendered_table(
            header_text(display_inviter),
            Seq::new(invites.len(), |i: int| row_text(invites[i], display_inviter, now)),
        ) + "\n```"@
    }
}

/// Whether every code is short enough for a table.
pub open spec fn codes_fit(invites: Seq<InviteEntry>) -> bool {
    forall|i: int| 0 <= i < invites.len() ==> (#[trigger] invites[i]).code@.len() <= MAX_CELL_CHARS
}

fn header_cells(display_inviter: bool) -> (cells: Vec<String>)
    ensures
        texts(cells@) == header_text(display_inviter),
        cells_fit(cells@),
{
    proof {
        reveal_strlit("Inviter");
        reveal_strlit("Invite");
        reveal_strlit("Uses");
        reveal_strlit("Expires");
    }
    let mut cells: Vec<String> = Vec::new();
    if display_inviter {
        cells.push("Inviter".to_owned());
    }
    cells.push("Invite".to_owned());
    cells.push("Uses".to_owned());
    cells.push("Expires".to_owned());
    assert(texts(cells@) =~= header_text(display_inviter));
    cells
}

fn uses_cell(invite: &Invite) -> (cell: String)
    ensures
        cell@ == uses_text(*invite),
        cell@.len() <= 50,
{
    proof {
        reveal_strlit("/");
        reveal_strlit("\u{221E}");
        lemma_decimal_fits(invite.uses as nat);
    }
    let mut cell = to_decimal(invite.uses);
    cell.append("/");
    match invite.max_uses {
        Some(limit) => {
            proof {
                lemma_decimal_fits(limit as nat);
            }
            push_decimal(&mut cell, limit);
        },
        None => {
            cell.append("\u{221E}");
        },
    }
    cell
}

fn expires_cell(invite: &Invite, now: i64) -> (cell: String)
    ensures
        cell@ == expires_text(*invite, now),
        cell@.len() <= 100,
{
    match invite.max_age {
        Some(until) => {
            proof {
                lemma_span_text_len(until - now);
            }
            time_left(until, now)
        },
        None => {
            proof {
                reveal_strlit("\u{221E}");
            }
            "\u{221E}".to_owned()
        },
    }
}

fn row_cells(entry: &InviteEntry, display_inviter: bool, now: i64) -> (cells: Vec<String>)
    requires
        entry.code@.len() <= MAX_CELL_CHARS,
    ensures
        texts(cells@) == row_text(*entry, display_inviter, now),
        cells_fit(cells@),
{
    let mut cells: Vec<String> = Vec::new();
    if display_inviter {
        proof {
            lemma_decimal_fits(entry.invite.inviter as nat);
        }
        cells.push(to_decimal(entry.invite.inviter));
    }
    cells.push(entry.code.clone());
    cells.push(uses_cell(&entry.invite));
    cells.push(expires_cell(&entry.invite, now));
    assert(texts(cells@) =~= row_text(*entry, display_inviter, now));
    cells
}

/// What the list command answers for these invites of the member `member`,
/// at the time `now`.
pub fn generate_invite_table(invites: &Vec<InviteEntry>, display_inviter: bool, member: u64, now: i64) -> (text:
    String)
    requires
        codes_fit(invites@),
    ensures
        text@ == table_text(invites@, display_inviter, member, now),
{
    let n = invites.len();
    if n == 0 {
        return if display_inviter {
            let mut text = "<@".to_owned();
            push_decimal(&mut text, member);
            text.append("> has no invites in this guild.");
            text
        } else {
            "You have no invites in this guild.".to_owned()
        };
    }
    let header = header_cells(display_inviter);
    let mut rows: Vec<Vec<String>> = Vec::new();
    let mut i: usize = 0;
    while i < n
        invariant
            n == invites@.len(),
            i <= n,
            codes_fit(invites@),
            rows@.len() == i,
            forall|k: int| 0 <= k < i ==> cells_fit((#[trigger] rows@[k])@),
            forall|k: int| 0 <= k < i ==> texts((#[trigger] rows@[k])@) == row_text(invites@[k], display_inviter, now),
        decreases n - i,
    {
        let cells = row_cells(&invites[i], display_inviter, now);
        rows.push(cells);
        i += 1;
    }
    assert(row_texts(rows@) =~= Seq::new(invites@.len(), |i: int| row_text(invites@[i], display_inviter, now)));
    let table = render_table(&header, &rows);
    let mut text = "```\n".to_owned();
    text.append(table.as_str());
    text.append("\n```");
    text
}

/// Whether every code is short enough for a table.
pub fn codes_fit_table(invites: &Vec<InviteEntry>) -> (r: bool)
    ensures
        r == codes_fit(invites@),
{
    let n = invites.len();
    let mut i: usize = 0;
    while i < n
        invariant
            n == invites@.len(),
            i <= n,
            forall|k: int| 0 <= k < i ==> (#[trigger] invites@[k]).code@.len() <= MAX_CELL_CHARS,
        decreases n - i,
    {
        if invites[i].code.as_str().unicode_len() > MAX_CELL_CHARS {
            return false;
        }
        i += 1;
    }
    true
}

} // verus!
