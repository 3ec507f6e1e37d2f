//! Fields and records. A field is a named, typed, validated attribute; a
//! record ("game") is an ordered collection of fields with a stable id and a
//! read-once flag that tells whether it was edited.

use crate::literal::is_bool_literal;
use crate::literal::is_float_literal;
use crate::literal::is_integer_literal;
use crate::literal::parses_as_bool;
use crate::literal::parses_as_float;
use crate::literal::parses_as_integer;
use crate::pattern::is_match;
use crate::pattern::regex_is_match;
use crate::text::chars_of;
use crate::text::lemma_encoding_is_injective;
use crate::text::same_bytes;
use crate::text::same_text;
use vstd::prelude::*;

verus! {

/// What a field's value has to be.
#[derive(Debug, PartialEq, Eq, Clone, Copy, Structural)]
pub enum FieldType {
    LineText,
    Integer,
    Float,
    Bool,
    Range,
    Date,
    File,
    MultilineText,
    Alphanumeric,
}

/// Why an operation on a record or a document gave no result.
#[derive(Debug, PartialEq, Eq, Clone, Copy, Structural)]
pub enum Error {
    /// The document's record markers do not pair up.
    ParseError,
    /// The record has no field of the name asked for.
    NotFound,
}

/// A single count, or two counts joined by a hyphen, of one to three digits
/// each.
pub const RANGE_PATTERN: &'static str = r"^(\d{1,3}|\d{1,3}-\d{1,3})$";

/// A date and time in the compact form `yyyymmddThhmmss`.
pub const FILE_DATE_PATTERN: &'static str = r"^\d{8}T\d{6}$";

/// A date and time in the form `yyyy-mm-ddThh:mm:ss`.
pub const ISO_DATE_PATTERN: &'static str = r"^\d{4}-\d{2}-\d{2}T\d{2}:\d{2}:\d{2}$";

/// ASCII letters and digits only; the empty text too.
pub const ALPHANUMERIC_PATTERN: &'static str = r"^[A-Za-z0-9]*$";

/// A relative path that starts with a dot, with an optional extension.
pub const FILE_PATTERN: &'static str = r"^\.(/[\w _\-()]+)*(\.[A-Za-z0-9]+)?$";

/// `pattern` is a regular expression that matches `value`.
pub open spec fn matches_pattern(pattern: Seq<char>, value: Seq<char>) -> bool {
    regex_is_match(pattern, value) == Some(true)
}

/// The rule that a value of each kind has to meet.
pub open spec fn value_is_valid(kind: FieldType, value: Seq<char>) -> bool {
    match kind {
        FieldType::LineText => !value.contains('\n'),
        FieldType::MultilineText => true,
        FieldType::Integer => is_integer_literal(value),
        FieldType::Float => is_float_literal(value),
        FieldType::Bool => is_bool_literal(value),
        FieldType::Range => matches_pattern(RANGE_PATTERN@, value),
        FieldType::Date => matches_pattern(ISO_DATE_PATTERN@, value) || matches_pattern(
            FILE_DATE_PATTERN@,
            value,
        ),
        FieldType::Alphanumeric => matches_pattern(ALPHANUMERIC_PATTERN@, value),
        FieldType::File => matches_pattern(FILE_PATTERN@, value),
    }
}

/// What a field says of a value that does not meet the rule of its kind.
pub open spec fn error_message(kind: FieldType) -> Seq<char> {
    match kind {
        FieldType::LineText => "Must contain a single line of text."@,
        FieldType::MultilineText => "Must contain one or more lines of text."@,
        FieldType::Integer => "Must be an integer."@,
        FieldType::Float => "Must be a floating point number."@,
        FieldType::Bool => "Must be a boolean value."@,
        FieldType::Range => "Must be a one number or a range eg 1-3"@,
        FieldType::Date => "Date format must be yyyymmddThhmmss or yyyy-mm-ddThh:mm:ss"@,
        FieldType::Alphanumeric => "Must be alphanumeric."@,
        FieldType::File => "Must be a file path."@,
    }
}

/// No kind's message is empty.
pub proof fn lemma_error_message_is_not_empty(kind: FieldType)
    ensures
        error_message(kind).len() > 0,
{
    reveal_strlit("Must contain a single line of text.");
    reveal_strlit("Must contain one or more lines of text.");
    reveal_strlit("Must be an integer.");
    reveal_strlit("Must be a floating point number.");
    reveal_strlit("Must be a boolean value.");
    reveal_strlit("Must be a one number or a range eg 1-3");
    reveal_strlit("Date format must be yyyymmddThhmmss or yyyy-mm-ddThh:mm:ss");
    reveal_strlit("Must be alphanumeric.");
    reveal_strlit("Must be a file path.");
}

/// The kind that a field has by its name.
pub open spec fn kind_of_name(name: Seq<char>) -> FieldType {
    if name == "path"@ || name == "image"@ || name == "video"@ || name == "marquee"@ || name
        == "thumbnail"@ {
        FieldType::File
    } else if name == "name"@ || name == "developer"@ || name == "publisher"@ || name == "genre"@
        || name == "lang"@ {
        FieldType::LineText
    } else if name == "desc"@ {
        FieldType::MultilineText
    } else if name == "lastplayed"@ || name == "releasedate"@ {
        FieldType::Date
    } else if name == "players"@ {
        FieldType::Range
    } else if name == "cheevosId"@ || name == "playcount"@ {
        FieldType::Integer
    } else if name == "rating"@ {
        FieldType::Float
    } else if name == "crc32"@ || name == "md5"@ || name == "cheevosHash"@ {
        FieldType::Alphanumeric
    } else {
        FieldType::LineText
    }
}

/// Whether a field of that name may be edited.
pub open spec fn editable_by_name(name: Seq<char>) -> bool {
    !(name == "last_played"@ || name == "playcount"@ || name == "crc32"@ || name == "md5"@ || name
        == "cheevosId"@ || name == "cheevosHash"@)
}

/// A field as contracts see it.
pub struct FieldView {
    pub name: Seq<char>,
    pub value: Seq<char>,
    pub editable: bool,
    pub field_type: FieldType,
    pub format_error_message: Seq<char>,
}

/// One named, typed, validated attribute of a record.
#[derive(Debug)]
pub struct Field {
    pub name: String,
    pub value: String,
    pub editable: bool,
    pub field_type: FieldType,
    pub format_error_message: String,
}

impl View for Field {
    type V = FieldView;

    open spec fn view(&self) -> FieldView {
        FieldView {
            name: self.name@,
            value: self.value@,
            editable: self.editable,
            field_type: self.field_type,
            format_error_message: self.format_error_message@,
        }
    }
}

/// The field that is made of a name, a raw value, a kind and a policy: the
/// raw value is kept where it meets the kind's rule, else the value is empty
/// and the field holds the kind's message.
pub open spec fn constructed(
    name: Seq<char>,
    raw: Seq<char>,
    kind: FieldType,
    editable: bool,
) -> FieldView {
    if value_is_valid(kind, raw) {
        FieldView {
            name,
            value: raw,
            editable,
            field_type: kind,
            format_error_message: Seq::empty(),
        }
    } else {
        FieldView {
            name,
            value: Seq::empty(),
            editable,
            field_type: kind,
            format_error_message: error_message(kind),
        }
    }
}

/// The field that a record makes of a name and a raw value: kind and policy
/// follow from the name.
pub open spec fn field_for(name: Seq<char>, raw: Seq<char>) -> FieldView {
    constructed(name, raw, kind_of_name(name), editable_by_name(name))
}

/// The message of a kind, as a string.
fn message_of(kind: FieldType) -> (message: String)
    ensures
        message@ == error_message(kind),
{
    match kind {
        FieldType::LineText => "Must contain a single line of text.".to_string(),
        FieldType::MultilineText => "Must contain one or more lines of text.".to_string(),
        FieldType::Integer => "Must be an integer.".to_string(),
        FieldType::Float => "Must be a floating point number.".to_string(),
        FieldType::Bool => "Must be a boolean value.".to_string(),
        FieldType::Range => "Must be a one number or a range eg 1-3".to_string(),
        FieldType::Date => "Date format must be yyyymmddThhmmss or yyyy-mm-ddThh:mm:ss".to_string(),
        FieldType::Alphanumeric => "Must be alphanumeric.".to_string(),
        FieldType::File => "Must be a file path.".to_string(),
    }
}

/// Whether `pattern` is a regular expression that matches `value`.
fn matches(pattern: &str, value: &str) -> (r: bool)
    ensures
        r == matches_pattern(pattern@, value@),
{
    match is_match(pattern, value) {
        Some(found) => found,
        None => false,
    }
}

/// Whether `chars` holds a line break.
fn has_line_break(chars: &Vec<char>) -> (r: bool)
    ensures
        r == chars@.contains('\n'),
{
    let mut i: usize = 0;
    while i < chars.len()
        invariant
            i <= chars.len(),
            forall|k: int| 0 <= k < i ==> chars@[k] != '\n',
        decreases chars.len() - i,
    {
        if chars[i] == '\n' {
            return true;
        }
        i += 1;
    }
    false
}

/// Whether `value` meets the rule of `kind`.
pub fn validate(kind: FieldType, value: &str) -> (valid: bool)
    ensures
        valid == value_is_valid(kind, value@),
{
    match kind {
        FieldType::LineText => {
            let chars = chars_of(value);
            !has_line_break(&chars)
        },
        FieldType::MultilineText => true,
        FieldType::Float => {
            let chars = chars_of(value);
            parses_as_float(&chars)
        },
        FieldType::Integer => {
            let chars = chars_of(value);
            parses_as_integer(&chars)
        },
        FieldType::Bool => {
            let chars = chars_of(value);
            parses_as_bool(&chars)
        },
        FieldType::Range => matches(RANGE_PATTERN, value),
        FieldType::Date => matches(ISO_DATE_PATTERN, value) || matches(FILE_DATE_PATTERN, value),
        FieldType::Alphanumeric => matches(ALPHANUMERIC_PATTERN, value),
        FieldType::File => matches(FILE_PATTERN, value),
    }
}

impl Field {
    /// Makes a field. The raw value is tested against the rule of the kind:
    /// one that meets it is kept and the field holds no message; one that
    /// does not is replaced by the empty value, and the field holds the
    /// kind's message, which is never empty.
    pub fn new(name: String, value: String, field_type: FieldType, editable: bool) -> (field: Field)
        ensures
            field@ == constructed(name@, value@, field_type, editable),
            value_is_valid(field_type, value@) ==> field.value@ == value@
                && field.format_error_message@.len() == 0,
            !value_is_valid(field_type, value@) ==> field.value@.len() == 0
                && field.format_error_message@.len() > 0,
    {
        let is_valid_value = validate(field_type, value.as_str());
        proof {
            lemma_error_message_is_not_empty(field_type);
        }
        if is_valid_value {
            Field { name, value, editable, field_type, format_error_message: String::new() }
        } else {
            Field {
                name,
                value: String::new(),
                editable,
                field_type,
                format_error_message: message_of(field_type),
            }
        }
    }
}

/// The kind that a field has by its name; a name that the table does not
/// hold is a line of text.
pub fn assign_a_field_type(field_name: &str) -> (kind: FieldType)
    ensures
        kind == kind_of_name(field_name@),
{
    if same_text(field_name, "path") || same_text(field_name, "image") || same_text(
        field_name,
        "video",
    ) || same_text(field_name, "marquee") || same_text(field_name, "thumbnail") {
        FieldType::File
    } else if same_text(field_name, "name") || same_text(field_name, "developer") || same_text(
        field_name,
        "publisher",
    ) || same_text(field_name, "genre") || same_text(field_name, "lang") {
        FieldType::LineText
    } else if same_text(field_name, "desc") {
        FieldType::MultilineText
    } else if same_text(field_name, "lastplayed") || same_text(field_name, "releasedate") {
        FieldType::Date
    } else if same_text(field_name, "players") {
        FieldType::Range
    } else if same_text(field_name, "cheevosId") || same_text(field_name, "playcount") {
        FieldType::Integer
    } else if same_text(field_name, "rating") {
        FieldType::Float
    } else if same_text(field_name, "crc32") || same_text(field_name, "md5") || same_text(
        field_name,
        "cheevosHash",
    ) {
        FieldType::Alphanumeric
    } else {
        FieldType::LineText
    }
}

/// Whether a field of that name may be edited: all may, but for a few that
/// hold checksums and play statistics.
pub fn check_if_field_is_editable(field_name: &str) -> (editable: bool)
    ensures
        editable == editable_by_name(field_name@),
{
    if same_text(field_name, "last_played") || same_text(field_name, "playcount") || same_text(
        field_name,
        "crc32",
    ) || same_text(field_name, "md5") || same_text(field_name, "cheevosId") || same_text(
        field_name,
        "cheevosHash",
    ) {
        false
    } else {
        true
    }
}

/// Whether two strings are the same, byte for byte.
pub fn compare_strings(first: &String, second: &String) -> (same: bool)
    ensures
        same == (first@ == second@),
{
    let same = same_bytes(first.as_str().as_bytes(), second.as_str().as_bytes());
    proof {
        if same {
            lemma_encoding_is_injective(first@, second@);
        }
    }
    same
}

/// The views of a record's fields, in order.
pub open spec fn field_views(fields: Seq<Field>) -> Seq<FieldView> {
    fields.map_values(|f: Field| f@)
}

/// `i` is the place of the first field of that name.
pub open spec fn is_first_named(fields: Seq<FieldView>, name: Seq<char>, i: int) -> bool {
    &&& 0 <= i < fields.len()
    &&& fields[i].name == name
    &&& forall|j: int| 0 <= j < i ==> (#[trigger] fields[j]).name != name
}

/// `i` is the place of the last field of that name: the one that was added
/// most recently.
pub open spec fn is_last_named(fields: Seq<FieldView>, name: Seq<char>, i: int) -> bool {
    &&& 0 <= i < fields.len()
    &&& fields[i].name == name
    &&& forall|j: int| i < j < fields.len() ==> (#[trigger] fields[j]).name != name
}

/// Some field has that name.
pub open spec fn has_named(fields: Seq<FieldView>, name: Seq<char>) -> bool {
    exists|i: int| 0 <= i < fields.len() && (#[trigger] fields[i]).name == name
}

/// The place of the last field of that name, where there is one.
pub open spec fn last_named(fields: Seq<FieldView>, name: Seq<char>) -> int {
    choose|i: int| is_last_named(fields, name, i)
}

/// The last field of a name stands at one place only.
pub proof fn lemma_last_named_is_unique(fields: Seq<FieldView>, name: Seq<char>, i: int)
    requires
        is_last_named(fields, name, i),
    ensures
        has_named(fields, name),
        last_named(fields, name) == i,
{
    assert(is_last_named(fields, name, last_named(fields, name)));
}

/// The place of the first field of that name, where there is one.
pub open spec fn first_named(fields: Seq<FieldView>, name: Seq<char>) -> int {
    choose|i: int| is_first_named(fields, name, i)
}

/// The first field of a name stands at one place only.
pub proof fn lemma_first_named_is_unique(fields: Seq<FieldView>, name: Seq<char>, i: int)
    requires
        is_first_named(fields, name, i),
    ensures
        has_named(fields, name),
        first_named(fields, name) == i,
{
    assert(is_first_named(fields, name, first_named(fields, name)));
}

/// A record as contracts see it.
pub struct GameView {
    pub id: usize,
    pub been_edited: bool,
    pub fields: Seq<FieldView>,
}

impl GameView {
    /// The record with one more field at its end, marked as edited.
    pub open spec fn with_added(self, field: FieldView) -> GameView {
        GameView { id: self.id, been_edited: true, fields: self.fields.push(field) }
    }

    /// The record in which the first field of the name of `field` has left and
    /// `field` stands at the end, marked as edited: the other fields keep
    /// their order. Where no field has that name, the record as it is.
    pub open spec fn with_changed(self, field: FieldView) -> GameView {
        if has_named(self.fields, field.name) {
            GameView {
                id: self.id,
                been_edited: true,
                fields: self.fields.remove(first_named(self.fields, field.name)).push(field),
            }
        } else {
            self
        }
    }

    /// Whether the last field of that name, the one added most recently,
    /// holds exactly `expected`; an error where no field has that name.
    pub open spec fn field_equals(self, name: Seq<char>, expected: Seq<char>) -> Result<
        bool,
        Error,
    > {
        if has_named(self.fields, name) {
            Ok(self.fields[last_named(self.fields, name)].value == expected)
        } else {
            Err(Error::NotFound)
        }
    }

    /// The record with its flag cleared.
    pub open spec fn read(self) -> GameView {
        GameView { id: self.id, been_edited: false, fields: self.fields }
    }
}

/// The flag of a record is read once: a record that got a field is marked
/// as edited; once that was read it is not, until it is edited again.
pub proof fn lemma_flag_is_read_once(game: GameView, field: FieldView)
    ensures
        game.with_added(field).been_edited,
        has_named(game.fields, field.name) ==> game.with_changed(field).been_edited,
        !game.with_added(field).read().been_edited,
        !game.with_changed(field).read().been_edited,
        game.read().read() == game.read(),
{
}

/// One game's metadata: its fields in the order in which they were added.
#[derive(Debug)]
pub struct Game {
    been_edited: bool,
    id: usize,
    pub fields: Vec<Field>,
}

impl View for Game {
    type V = GameView;

    closed spec fn view(&self) -> GameView {
        GameView { id: self.id, been_edited: self.been_edited, fields: field_views(self.fields@) }
    }
}

impl Game {
    /// A record of that id, without fields, not edited.
    pub fn new(id: usize) -> (game: Game)
        ensures
            game@ == (GameView { id, been_edited: false, fields: Seq::empty() }),
    {
        let game = Game { been_edited: false, id, fields: Vec::new() };
        assert(field_views(game.fields@) =~= Seq::empty());
        game
    }

    /// The record that has that id, that flag and those fields.
    pub fn restore(id: usize, been_edited: bool, fields: Vec<Field>) -> (game: Game)
        ensures
            game@ == (GameView { id, been_edited, fields: field_views(fields@) }),
    {
        Game { been_edited, id, fields }
    }

    /// Appends the field made of `name` and `value`, kind and policy taken
    /// from the name, and marks the record as edited.
    pub fn add_field(&mut self, name: &str, value: String)
        ensures
            final(self)@ == old(self)@.with_added(field_for(name@, value@)),
    {
        let field_type = assign_a_field_type(name);
        let is_editable = check_if_field_is_editable(name);
        let field = Field::new(name.to_string(), value, field_type, is_editable);
        self.been_edited = true;
        self.fields.push(field);
        assert(field_views(self.fields@) =~= field_views(old(self).fields@).push(field@));
    }

    /// The place of the last field of that name.
    fn last_position(&self, field_name: &str) -> (place: Option<usize>)
        ensures
            match place {
                Some(i) => is_last_named(self@.fields, field_name@, i as int) && i
                    < self.fields.len(),
                None => !has_named(self@.fields, field_name@),
            },
    {
        let mut i: usize = self.fields.len();
        while i > 0
            invariant
                i <= self.fields.len(),
                forall|j: int|
                    i <= j < self.fields.len() ==> (#[trigger] self@.fields[j]).name
                        != field_name@,
            decreases i,
        {
            i -= 1;
            if same_text(self.fields[i].name.as_str(), field_name) {
                return Some(i);
            }
        }
        None
    }

    /// The place of the first field of that name.
    fn position(&self, field_name: &str) -> (place: Option<usize>)
        ensures
            match place {
                Some(i) => is_first_named(self@.fields, field_name@, i as int) && i
                    < self.fields.len(),
                None => !has_named(self@.fields, field_name@),
            },
    {
        let mut i: usize = 0;
        while i < self.fields.len()
            invariant
                i <= self.fields.len(),
                forall|j: int| 0 <= j < i ==> (#[trigger] self@.fields[j]).name != field_name@,
            decreases self.fields.len() - i,
        {
            if same_text(self.fields[i].name.as_str(), field_name) {
                return Some(i);
            }
            i += 1;
        }
        None
    }

    /// Whether the field of that name holds exactly `value`, byte for byte;
    /// where several fields have the name, the one added most recently
    /// counts. `NotFound` where the record has no field of that name.
    pub fn field_contains_value(&self, field_name: &str, value: String) -> (found: Result<
        bool,
        Error,
    >)
        ensures
            found == self@.field_equals(field_name@, value@),
    {
        match self.last_position(field_name) {
            Some(i) => {
                proof {
                    lemma_last_named_is_unique(self@.fields, field_name@, i as int);
                }
                if compare_strings(&self.fields[i].value, &value) {
                    Ok(true)
                } else {
                    Ok(false)
                }
            },
            None => Err(Error::NotFound),
        }
    }

    /// Replaces the first field of that name: it leaves the record, and the
    /// field made of the name and `value` goes to the end; the other fields
    /// keep their order, and the record is marked as edited. A record
    /// without a field of that name stays as it is.
    pub fn change_field(&mut self, field_name: &str, value: String)
        ensures
            final(self)@ == old(self)@.with_changed(field_for(field_name@, value@)),
    {
        let index_result = self.position(field_name);
        if let Some(index) = index_result {
            proof {
                lemma_first_named_is_unique(self@.fields, field_name@, index as int);
            }
            let field_type = assign_a_field_type(field_name);
            let is_editable = check_if_field_is_editable(field_name);
            let field = Field::new(field_name.to_string(), value, field_type, is_editable);
            self.been_edited = true;
            self.fields.remove(index);
            self.fields.push(field);
            assert(field_views(self.fields@) =~= field_views(old(self).fields@).remove(
                index as int,
            ).push(field@));
        }
    }

    /// The record's fields, in order.
    pub fn fields(&self) -> (fields: &Vec<Field>)
        ensures
            field_views(fields@) == self@.fields,
    {
        &self.fields
    }

    /// The record's id.
    pub fn game_id(&self) -> (id: usize)
        ensures
            id == self@.id,
    {
        self.id
    }

    /// Whether the record is marked as edited; the flag stays as it is.
    pub fn is_marked(&self) -> (edited: bool)
        ensures
            edited == self@.been_edited,
    {
        self.been_edited
    }

    /// Whether the record was edited since this was last asked; asking clears
    /// the flag.
    pub fn has_been_edited(&mut self) -> (edited: bool)
        ensures
            edited == old(self)@.been_edited,
            final(self)@ == old(self)@.read(),
    {
        if self.been_edited {
            self.been_edited = false;
            true
        } else {
            false
        }
    }
}

} // verus!
