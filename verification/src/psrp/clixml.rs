//! CLIXML: the templates that a client sends, and what it reads out of replies.

use vstd::prelude::*;
use vstd::slice::slice_subrange;

use crate::search;
use crate::text;
use crate::text::Blank;

verus! {

/// What begins every message body that is sent.
pub const OBJECT_HEAD: &'static str = r#"<Obj RefId="0"><MS>"#;

/// Rest of the body of a SessionCapability message.
pub const SESSION_CAPABILITY_FIELDS: &'static str = r#"<Version N="PSVersion">2.0</Version><Version N="protocolversion">2.3</Version><Version N="SerializationVersion">1.1.0.1</Version></MS></Obj>"#;

/// Rest of the body of an InitRunspacePool message: one runspace, no host.
pub const INIT_RUNSPACE_POOL_FIELDS: &'static str = r#"<I32 N="MinRunspaces">1</I32><I32 N="MaxRunspaces">1</I32><Obj N="PSThreadOptions" RefId="1"><TN RefId="2"><T>System.Management.Automation.Runspaces.PSThreadOptions</T><T>System.Enum</T><T>System.ValueType</T><T>System.Object</T></TN><ToString>Default</ToString><I32>0</I32></Obj><Obj N="ApartmentState" RefId="3"><TN RefId="4"><T>System.Management.Automation.Runspaces.ApartmentState</T><T>System.Enum</T><T>System.ValueType</T><T>System.Object</T></TN><ToString>UNKNOWN</ToString><I32>2</I32></Obj><Obj N="HostInfo" RefId="5"><MS><B N="_isHostNull">true</B><B N="_isHostUINull">true</B><B N="_isHostRawUINull">true</B><B N="_useRunspaceHost">true</B></MS></Obj><Nil N="ApplicationArguments"/></MS></Obj>"#;

/// What precedes the script in the body of a CreatePipeline message.
pub const CREATE_PIPELINE_HEAD: &'static str = r#"<B N="NoInput">true</B><Obj RefId="1" N="ApartmentState"><TN RefId="0"><T>System.Management.Automation.Runspaces.ApartmentState</T><T>System.Enum</T><T>System.ValueType</T><T>System.Object</T></TN><ToString>UNKNOWN</ToString><I32>2</I32></Obj><Obj RefId="2" N="RemoteStreamOptions"><TN RefId="1"><T>System.Management.Automation.Runspaces.RemoteStreamOptions</T><T>System.Enum</T><T>System.ValueType</T><T>System.Object</T></TN><ToString>None</ToString><I32>0</I32></Obj><B N="AddToHistory">false</B><Obj RefId="3" N="HostInfo"><MS><B N="_isHostNull">true</B><B N="_isHostUINull">true</B><B N="_isHostRawUINull">true</B><B N="_useRunspaceHost">true</B></MS></Obj><Obj RefId="4" N="PowerShell"><MS><B N="IsNested">false</B><Nil N="ExtraCmds" /><Obj RefId="5" N="Cmds"><TN RefId="2"><T>System.Collections.Generic.List`1[[System.Management.Automation.PSObject, System.Management.Automation, Version=1.0.0.0, Culture=neutral, PublicKeyToken=31bf3856ad364e35]]</T><T>System.Object</T></TN><LST><Obj RefId="6"><MS><S N="Cmd">"#;

/// What follows the script in the body of a CreatePipeline message.
pub const CREATE_PIPELINE_TAIL: &'static str = r#"</S><B N="IsScript">true</B><Nil N="UseLocalScope" /><Obj RefId="7" N="MergeMyResult"><TN RefId="3"><T>System.Management.Automation.Runspaces.PipelineResultTypes</T><T>System.Enum</T><T>System.ValueType</T><T>System.Object</T></TN><ToString>None</ToString><I32>0</I32></Obj><Obj RefId="8" N="MergeToResult"><TNRef RefId="3" /><ToString>None</ToString><I32>0</I32></Obj><Obj RefId="9" N="MergePreviousResults"><TNRef RefId="3" /><ToString>None</ToString><I32>0</I32></Obj><Obj RefId="10" N="Args"><TNRef RefId="2" /><LST /></Obj><Obj RefId="11" N="MergeError"><TNRef RefId="3" /><ToString>None</ToString><I32>0</I32></Obj><Obj RefId="12" N="MergeWarning"><TNRef RefId="3" /><ToString>None</ToString><I32>0</I32></Obj><Obj RefId="13" N="MergeVerbose"><TNRef RefId="3" /><ToString>None</ToString><I32>0</I32></Obj><Obj RefId="14" N="MergeDebug"><TNRef RefId="3" /><ToString>None</ToString><I32>0</I32></Obj><Obj RefId="15" N="MergeInformation"><TNRef RefId="3" /><ToString>None</ToString><I32>0</I32></Obj></MS></Obj></LST></Obj><Nil N="History" /><B N="RedirectShellErrorOutputPipe">false</B></MS></Obj><B N="IsNested">false</B></MS></Obj>"#;

/// The body of a SessionCapability message, in characters.
pub open spec fn session_capability_body() -> Seq<char> {
    OBJECT_HEAD@ + SESSION_CAPABILITY_FIELDS@
}

/// The body of an InitRunspacePool message, in characters.
pub open spec fn init_runspace_pool_body() -> Seq<char> {
    OBJECT_HEAD@ + INIT_RUNSPACE_POOL_FIELDS@
}

/// The body of a SessionCapability message.
pub fn session_capability_xml() -> (r: String)
    ensures
        r@ == session_capability_body(),
{
    text::concat(OBJECT_HEAD, SESSION_CAPABILITY_FIELDS)
}

/// The body of an InitRunspacePool message.
pub fn init_runspace_pool_xml() -> (r: String)
    ensures
        r@ == init_runspace_pool_body(),
{
    text::concat(OBJECT_HEAD, INIT_RUNSPACE_POOL_FIELDS)
}

/// An upper-case hexadecimal digit.
pub open spec fn upper_hex_char(d: nat) -> char {
    if d < 10 {
        (48 + d) as char
    } else {
        (55 + d) as char
    }
}

/// A control character that cannot stand in XML text.
pub open spec fn is_forbidden_control(c: char) -> bool {
    (c as u32) < 0x20 && c != '\t' && c != '\n' && c != '\r'
}

/// The escaped form of one character.
pub open spec fn escaped_char(c: char) -> Seq<char> {
    if c == '<' {
        "&lt;"@
    } else if c == '>' {
        "&gt;"@
    } else if c == '&' {
        "&amp;"@
    } else if c == '"' {
        "&quot;"@
    } else if c == '\'' {
        "&apos;"@
    } else if is_forbidden_control(c) {
        "_x00"@.push(upper_hex_char((c as u32 / 16) as nat)).push(
            upper_hex_char((c as u32 % 16) as nat),
        ).push('_')
    } else {
        seq![c]
    }
}

/// The escaped form of a text.
pub open spec fn escaped(s: Seq<char>) -> Seq<char>
    decreases s.len(),
{
    if s.len() == 0 {
        Seq::empty()
    } else {
        escaped(s.drop_last()) + escaped_char(s.last())
    }
}

/// The body of a CreatePipeline message for a script.
pub open spec fn pipeline_xml(script: Seq<char>) -> Seq<char> {
    OBJECT_HEAD@ + CREATE_PIPELINE_HEAD@ + escaped(script) + CREATE_PIPELINE_TAIL@
}

fn upper_hex(d: u8) -> (r: char)
    requires
        d < 16,
    ensures
        r == upper_hex_char(d as nat),
{
    if d < 10 {
        (48 + d) as char
    } else {
        (55 + d) as char
    }
}

/// Escapes a text for XML content.
pub fn xml_escape(s: &str) -> (r: String)
    ensures
        r@ == escaped(s@),
{
    let mut out = String::new();
    for c in it: s.chars()
        invariant
            it.seq() == s@,
            out@ == escaped(s@.take(it.index() as int)),
    {
        let ghost before = out@;
        let u: u32 = c as u32;
        if c == '<' {
            out.append("&lt;");
        } else if c == '>' {
            out.append("&gt;");
        } else if c == '&' {
            out.append("&amp;");
        } else if c == '"' {
            out.append("&quot;");
        } else if c == '\'' {
            out.append("&apos;");
        } else if u < 0x20 && c != '\t' && c != '\n' && c != '\r' {
            let b: u8 = u as u8;
            out.append("_x00");
            out.push(upper_hex(b / 16));
            out.push(upper_hex(b % 16));
            out.push('_');
        } else {
            out.push(c);
        }
        assert(out@ =~= before + escaped_char(c));
        assert(s@.take(it.index() + 1).drop_last() =~= s@.take(it.index() as int));
    }
    assert(s@.take(s@.len() as int) =~= s@);
    out
}

/// The body of a CreatePipeline message for a single script command.
pub fn create_pipeline_xml(script: &str) -> (r: String)
    ensures
        r@ == pipeline_xml(script@),
{
    let mut out = text::concat(OBJECT_HEAD, CREATE_PIPELINE_HEAD);
    out.append(xml_escape(script).as_str());
    out.append(CREATE_PIPELINE_TAIL);
    out
}

/// A text with its five XML entities resolved, one kind after the other.
pub open spec fn unescaped(s: Seq<char>) -> Seq<char> {
    let s1 = text::replace_all(s, "&lt;"@, "<"@);
    let s2 = text::replace_all(s1, "&gt;"@, ">"@);
    let s3 = text::replace_all(s2, "&amp;"@, "&"@);
    let s4 = text::replace_all(s3, "&quot;"@, "\""@);
    text::replace_all(s4, "&apos;"@, "'"@)
}

/// Replaces each occurrence of `p` by `with`.
fn replace_literal(s: &[char], p: &str, with: &str) -> (r: Vec<char>)
    requires
        p@.len() > 0,
    ensures
        r@ == text::replace_all(s@, p@, with@),
{
    text::replaced(s, text::chars_of(p).as_slice(), text::chars_of(with).as_slice())
}

/// Resolves the XML entities in a slice of characters.
fn unescape_chars(s: &[char]) -> (r: Vec<char>)
    ensures
        r@ == unescaped(s@),
{
    proof {
        reveal_strlit("&lt;");
        reveal_strlit("&gt;");
        reveal_strlit("&amp;");
        reveal_strlit("&quot;");
        reveal_strlit("&apos;");
    }
    let s1 = replace_literal(s, "&lt;", "<");
    let s2 = replace_literal(s1.as_slice(), "&gt;", ">");
    let s3 = replace_literal(s2.as_slice(), "&amp;", "&");
    let s4 = replace_literal(s3.as_slice(), "&quot;", "\"");
    replace_literal(s4.as_slice(), "&apos;", "'")
}

/// Resolves the XML entities in a text.
pub fn xml_unescape(s: &str) -> (r: String)
    ensures
        r@ == unescaped(s@),
{
    text::string_of(unescape_chars(text::chars_of(s).as_slice()).as_slice())
}

/// The attribute that names an element.
pub open spec fn name_attribute(name: Seq<char>) -> Seq<char> {
    "N=\""@ + name + "\""@
}

/// The name of a tag has ended: the tag ends as well, or a blank follows.
pub open spec fn name_ended(after: Seq<char>) -> bool {
    after.len() > 0 && (after[0] == '>' || after[0] == '/' || Blank::Ascii.covers(after[0]))
}

/// Whether the name of a tag has ended.
fn has_name_ended(after: &[char]) -> (r: bool)
    ensures
        r == name_ended(after@),
{
    after.len() > 0 && (after[0] == '>' || after[0] == '/' || Blank::Ascii.is_blank(after[0]))
}

/// The quote that is open behind `c`, where `quote` is the one that is open before it.
pub open spec fn next_quote(quote: Option<char>, c: char) -> Option<char> {
    match quote {
        Some(q) => if c == q {
            None
        } else {
            quote
        },
        None => if c == '"' || c == '\'' {
            Some(c)
        } else {
            None
        },
    }
}

/// The index of the first `>` at or after `from` that stands in no quoted value, up to the next
/// `<`.
pub open spec fn unquoted_end(s: Seq<char>, quote: Option<char>, from: int) -> Option<int>
    decreases s.len() - from,
{
    if from >= s.len() || s[from] == '<' {
        None
    } else if quote is None && s[from] == '>' {
        Some(from)
    } else {
        unquoted_end(s, next_quote(quote, s[from]), from + 1)
    }
}

/// The index of the `>` that ends the tag whose text `s` begins with.
///
/// A `>` in a quoted value ends no tag. Where the quotes of a tag do not match up, its first `>`
/// does.
pub open spec fn tag_end(s: Seq<char>) -> Option<int> {
    match unquoted_end(s, None, 0) {
        Some(i) => Some(i),
        None => search::find(s, seq!['>']),
    }
}

/// What ends a tag outside of quoted values is a `>` at or after the start of the search.
proof fn lemma_unquoted_end(s: Seq<char>, quote: Option<char>, from: int)
    requires
        0 <= from,
    ensures
        unquoted_end(s, quote, from) matches Some(i) ==> from <= i < s.len() && s[i] == '>',
    decreases s.len() - from,
{
    if from < s.len() && s[from] != '<' && !(quote is None && s[from] == '>') {
        lemma_unquoted_end(s, next_quote(quote, s[from]), from + 1);
    }
}

/// The end of a tag is a `>` of the text.
pub proof fn lemma_tag_end(s: Seq<char>)
    ensures
        tag_end(s) matches Some(i) ==> 0 <= i < s.len() && s[i] == '>',
{
    lemma_unquoted_end(s, None, 0);
    search::lemma_find_from(s, seq!['>'], 0);
    if let Some(i) = search::find(s, seq!['>']) {
        assert(s.subrange(i, i + 1)[0] == '>');
    }
}

/// Finds the end of the tag whose text `s` begins with.
fn find_tag_end(s: &[char]) -> (r: Option<usize>)
    ensures
        match r {
            Some(i) => tag_end(s@) == Some(i as int) && i < s@.len(),
            None => tag_end(s@) is None,
        },
{
    let gt: [char; 1] = ['>'];
    assert(gt@ =~= seq!['>']);
    let mut quote: Option<char> = None;
    let mut i: usize = 0;
    while i < s.len() && s[i] != '<'
        invariant
            i <= s@.len(),
            unquoted_end(s@, None, 0) == unquoted_end(s@, quote, i as int),
        decreases s@.len() - i,
    {
        let c = s[i];
        match quote {
            Some(q) => {
                if c == q {
                    quote = None;
                }
            },
            None => {
                if c == '>' {
                    return Some(i);
                }
                if c == '"' || c == '\'' {
                    quote = Some(c);
                }
            },
        }
        i = i + 1;
    }
    proof {
        lemma_tag_end(s@);
    }
    search::find_in(s, &gt)
}

/// What follows the first start tag of an `I32` element that carries the given name.
///
/// The name stands in the tag. A tag that closes itself starts nothing.
pub open spec fn named_content(rest: Seq<char>, name: Seq<char>) -> Option<Seq<char>>
    decreases rest.len(),
    via named_content_decreases
{
    match search::find(rest, "<I32"@) {
        None => None,
        Some(start) => {
            let after = rest.skip(start + 4);
            match search::find(after, name_attribute(name)) {
                None => None,
                Some(at) => {
                    let tail = after.skip(at + name_attribute(name).len());
                    match tag_end(tail) {
                        None => None,
                        Some(gt) => if name_ended(after) && tag_ends_behind(after, at) && !(gt > 0
                            && tail[gt - 1] == '/') {
                            Some(tail.skip(gt + 1))
                        } else {
                            named_content(after, name)
                        },
                    }
                },
            }
        },
    }
}

/// The tag whose text `s` begins with goes on at index `at`.
pub open spec fn tag_ends_behind(s: Seq<char>, at: int) -> bool {
    tag_end(s) matches Some(end) && at <= end
}

#[via_fn]
proof fn named_content_decreases(rest: Seq<char>, name: Seq<char>) {
    reveal_strlit("<I32");
    search::lemma_find_from(rest, "<I32"@, 0);
}

/// The number in the `I32` element that carries the given name.
///
/// It stands between the start tag and the next tag.
pub open spec fn named_i32(xml: Seq<char>, name: Seq<char>) -> Option<i32> {
    match named_content(xml, name) {
        None => None,
        Some(content) => match search::find(content, seq!['<']) {
            None => None,
            Some(end) => text::i32_of(text::trim(content.take(end), Blank::Unicode)),
        },
    }
}

/// Finds what follows the start tag of the `I32` element that carries the given name.
fn find_named_content<'a>(xml: &'a [char], name: &str) -> (r: Option<&'a [char]>)
    ensures
        match r {
            Some(content) => named_content(xml@, name@) == Some(content@),
            None => named_content(xml@, name@) is None,
        },
{
    let mut attribute = text::concat("N=\"", name);
    attribute.append("\"");
    let attribute = text::chars_of(attribute.as_str());
    let open = text::chars_of("<I32");
    proof {
        reveal_strlit("<I32");
    }
    let mut rest = xml;
    loop
        invariant
            attribute@ == name_attribute(name@),
            open@ == "<I32"@,
            open@.len() == 4,
            named_content(rest@, name@) == named_content(xml@, name@),
        decreases rest@.len(),
    {
        let start = match search::find_in(rest, open.as_slice()) {
            Some(start) => start,
            None => {
                return None;
            },
        };
        let after = slice_subrange(rest, start + 4, rest.len());
        assert(after@ =~= rest@.skip(start + 4));
        let at = match search::find_in(after, attribute.as_slice()) {
            Some(at) => at,
            None => {
                return None;
            },
        };
        let tail = slice_subrange(after, at + attribute.len(), after.len());
        assert(tail@ =~= after@.skip(at + attribute@.len()));
        let g = match find_tag_end(tail) {
            Some(g) => g,
            None => {
                return None;
            },
        };
        let goes_on = match find_tag_end(after) {
            Some(end) => at <= end,
            None => false,
        };
        if has_name_ended(after) && goes_on && !(g > 0 && tail[g - 1] == '/') {
            let content = slice_subrange(tail, g + 1, tail.len());
            assert(content@ =~= tail@.skip(g + 1));
            return Some(content);
        }
        rest = after;
    }
}

/// Extracts the number in the `I32` element that carries the given name.
pub fn extract_named_i32(xml: &str, name: &str) -> (r: Option<i32>)
    ensures
        r == named_i32(xml@, name@),
{
    let all = text::chars_of(xml);
    let lt: [char; 1] = ['<'];
    assert(lt@ =~= seq!['<']);
    let content = match find_named_content(all.as_slice(), name) {
        Some(content) => content,
        None => {
            return None;
        },
    };
    let end = match search::find_in(content, &lt) {
        Some(end) => end,
        None => {
            return None;
        },
    };
    let number = slice_subrange(content, 0, end);
    assert(number@ =~= content@.take(end as int));
    text::read_i32(text::trimmed(number, Blank::Unicode))
}

/// `text` as a list: empty if the text is empty.
pub open spec fn non_empty(t: Seq<char>) -> Seq<Seq<char>> {
    if t.len() == 0 {
        Seq::empty()
    } else {
        seq![t]
    }
}

/// The non-empty texts of the `S` elements, in order.
///
/// Tags of other names and self-closing tags are skipped. The list ends at a tag without an end,
/// or at an element without a closing tag.
pub open spec fn string_texts(rest: Seq<char>) -> Seq<Seq<char>>
    decreases rest.len(),
    via string_texts_decreases
{
    match search::find(rest, "<S"@) {
        None => Seq::empty(),
        Some(start) => {
            let after = rest.skip(start + 2);
            if !name_ended(after) {
                string_texts(after)
            } else {
                match tag_end(after) {
                    None => Seq::empty(),
                    Some(gt) => {
                        let content = after.skip(gt + 1);
                        if gt > 0 && after[gt - 1] == '/' {
                            string_texts(content)
                        } else {
                            match search::find(content, "</S>"@) {
                                None => Seq::empty(),
                                Some(end) => non_empty(unescaped(content.take(end)))
                                    + string_texts(content.skip(end + 4)),
                            }
                        }
                    },
                }
            }
        },
    }
}

#[via_fn]
proof fn string_texts_decreases(rest: Seq<char>) {
    reveal_strlit("<S");
    reveal_strlit("</S>");
    search::lemma_find_from(rest, "<S"@, 0);
    if let Some(start) = search::find(rest, "<S"@) {
        let after = rest.skip(start + 2);
        lemma_tag_end(after);
        if let Some(gt) = tag_end(after) {
            search::lemma_find_from(after.skip(gt + 1), "</S>"@, 0);
        }
    }
}

/// A text that stands for a value and not for an enumeration's default.
pub open spec fn is_telling(t: Seq<char>) -> bool {
    t.len() > 0 && t != "None"@ && t != "Default"@ && t != "UNKNOWN"@
}

/// The first telling text of a `<ToString>` element, up to one without a closing tag.
pub open spec fn to_string_text(rest: Seq<char>) -> Option<Seq<char>>
    decreases rest.len(),
    via to_string_text_decreases
{
    match search::find(rest, "<ToString>"@) {
        None => None,
        Some(start) => {
            let content = rest.skip(start + 10);
            match search::find(content, "</ToString>"@) {
                None => None,
                Some(end) => {
                    let t = unescaped(content.take(end));
                    if is_telling(t) {
                        Some(t)
                    } else {
                        to_string_text(content.skip(end + 11))
                    }
                },
            }
        },
    }
}

#[via_fn]
proof fn to_string_text_decreases(rest: Seq<char>) {
    reveal_strlit("<ToString>");
    reveal_strlit("</ToString>");
    search::lemma_find_from(rest, "<ToString>"@, 0);
    if let Some(start) = search::find(rest, "<ToString>"@) {
        search::lemma_find_from(rest.skip(start + 10), "</ToString>"@, 0);
    }
}

/// What stands between the first and the second `>` of a piece of text, or between the first
/// and its end.
pub open spec fn after_tag(piece: Seq<char>) -> Seq<char> {
    match search::find(piece, seq!['>']) {
        None => Seq::empty(),
        Some(i) => search::before_first(piece.skip(i + 1), seq!['>']),
    }
}

/// The text outside of tags.
pub open spec fn without_tags(xml: Seq<char>) -> Seq<char>
    decreases xml.len(),
    via without_tags_decreases
{
    match search::find(xml, seq!['<']) {
        None => after_tag(xml),
        Some(i) => after_tag(xml.take(i)) + without_tags(xml.skip(i + 1)),
    }
}

#[via_fn]
proof fn without_tags_decreases(xml: Seq<char>) {
    search::lemma_find_from(xml, seq!['<'], 0);
}

/// Texts joined by line feeds.
pub open spec fn joined(parts: Seq<Seq<char>>) -> Seq<char>
    decreases parts.len(),
{
    if parts.len() == 0 {
        Seq::empty()
    } else if parts.len() == 1 {
        parts[0]
    } else {
        joined(parts.drop_last()) + seq!['\n'] + parts.last()
    }
}

/// The human-readable text of a CLIXML fragment: its `S` texts, else the first telling
/// `<ToString>` text, else all text outside of tags.
pub open spec fn output_text(xml: Seq<char>) -> Seq<char> {
    if string_texts(xml).len() > 0 {
        joined(string_texts(xml))
    } else {
        match to_string_text(xml) {
            Some(t) => t,
            None => text::trim(without_tags(xml), Blank::Unicode),
        }
    }
}

/// Collects the texts of the `S` elements, joined by line feeds.
///
/// The flag tells whether there is any.
fn join_string_texts(xml: &[char]) -> (r: (bool, Vec<char>))
    ensures
        r.0 == (string_texts(xml@).len() > 0),
        r.1@ == joined(string_texts(xml@)),
{
    proof {
        reveal_strlit("<S");
        reveal_strlit("</S>");
    }
    let open = text::chars_of("<S");
    let close = text::chars_of("</S>");
    let ghost mut parts: Seq<Seq<char>> = Seq::empty();
    let mut any = false;
    let mut out: Vec<char> = Vec::new();
    let mut rest = xml;
    loop
        invariant_except_break
            parts + string_texts(rest@) =~= string_texts(xml@),
        invariant
            open@ == "<S"@,
            close@ == "</S>"@,
            open@.len() == 2,
            close@.len() == 4,
            any == (parts.len() > 0),
            out@ == joined(parts),
        ensures
            parts == string_texts(xml@),
        decreases rest@.len(),
    {
        let start = match search::find_in(rest, open.as_slice()) {
            Some(start) => start,
            None => {
                break ;
            },
        };
        let after = slice_subrange(rest, start + 2, rest.len());
        assert(after@ =~= rest@.skip(start + 2));
        if !has_name_ended(after) {
            rest = after;
            continue ;
        }
        let g = match find_tag_end(after) {
            Some(g) => g,
            None => {
                break ;
            },
        };
        let content = slice_subrange(after, g + 1, after.len());
        assert(content@ =~= after@.skip(g + 1));
        if g > 0 && after[g - 1] == '/' {
            rest = content;
            continue ;
        }
        let end = match search::find_in(content, close.as_slice()) {
            Some(end) => end,
            None => {
                break ;
            },
        };
        let inner = slice_subrange(content, 0, end);
        assert(inner@ =~= content@.take(end as int));
        let t = unescape_chars(inner);
        let ghost before = parts;
        if t.len() > 0 {
            if any {
                out.push('\n');
            }
            out.extend_from_slice(t.as_slice());
            any = true;
            proof {
                parts = parts.push(t@);
                assert(parts.drop_last() =~= before);
                assert(parts =~= before + non_empty(t@));
            }
            assert(out@ =~= joined(parts));
        } else {
            assert(parts =~= before + non_empty(t@));
        }
        rest = slice_subrange(content, end + 4, content.len());
        assert(rest@ =~= content@.skip(end + 4));
    }
    (any, out)
}

/// Whether a text stands for a value and not for an enumeration's default.
fn telling(t: &[char]) -> (r: bool)
    ensures
        r == is_telling(t@),
{
    t.len() > 0 && !search::same_symbols(t, text::chars_of("None").as_slice())
        && !search::same_symbols(t, text::chars_of("Default").as_slice())
        && !search::same_symbols(t, text::chars_of("UNKNOWN").as_slice())
}

/// Finds the first telling text of a `<ToString>` element.
fn find_to_string_text(xml: &[char]) -> (r: Option<Vec<char>>)
    ensures
        match r {
            Some(t) => to_string_text(xml@) == Some(t@),
            None => to_string_text(xml@) is None,
        },
{
    proof {
        reveal_strlit("<ToString>");
        reveal_strlit("</ToString>");
    }
    let open = text::chars_of("<ToString>");
    let close = text::chars_of("</ToString>");
    let mut rest = xml;
    loop
        invariant
            open@ == "<ToString>"@,
            close@ == "</ToString>"@,
            open@.len() == 10,
            close@.len() == 11,
            to_string_text(rest@) == to_string_text(xml@),
        decreases rest@.len(),
    {
        let start = match search::find_in(rest, open.as_slice()) {
            Some(start) => start,
            None => {
                return None;
            },
        };
        let content = slice_subrange(rest, start + 10, rest.len());
        assert(content@ =~= rest@.skip(start + 10));
        let end = match search::find_in(content, close.as_slice()) {
            Some(end) => end,
            None => {
                return None;
            },
        };
        let inner = slice_subrange(content, 0, end);
        assert(inner@ =~= content@.take(end as int));
        let t = unescape_chars(inner);
        if telling(t.as_slice()) {
            return Some(t);
        }
        rest = slice_subrange(content, end + 11, content.len());
        assert(rest@ =~= content@.skip(end + 11));
    }
}

/// Appends what stands between the first and the second `>` of a piece of text.
fn push_after_tag(out: &mut Vec<char>, piece: &[char])
    ensures
        final(out)@ == old(out)@ + after_tag(piece@),
{
    let gt: [char; 1] = ['>'];
    assert(gt@ =~= seq!['>']);
    match search::find_in(piece, &gt) {
        None => {
            assert(out@ =~= old(out)@ + after_tag(piece@));
        },
        Some(i) => {
            let rest = slice_subrange(piece, i + 1, piece.len());
            assert(rest@ =~= piece@.skip(i + 1));
            match search::find_in(rest, &gt) {
                None => {
                    out.extend_from_slice(rest);
                },
                Some(j) => {
                    let upto = slice_subrange(rest, 0, j);
                    assert(upto@ =~= rest@.take(j as int));
                    out.extend_from_slice(upto);
                },
            }
            assert(out@ =~= old(out)@ + after_tag(piece@));
        },
    }
}

/// Strips the tags from a text.
fn strip_tags(xml: &[char]) -> (r: Vec<char>)
    ensures
        r@ == without_tags(xml@),
{
    let lt: [char; 1] = ['<'];
    assert(lt@ =~= seq!['<']);
    let mut out: Vec<char> = Vec::new();
    let mut rest = xml;
    loop
        invariant
            lt@ == seq!['<'],
            out@ + without_tags(rest@) =~= without_tags(xml@),
        decreases rest@.len(),
    {
        match search::find_in(rest, &lt) {
            None => {
                push_after_tag(&mut out, rest);
                return out;
            },
            Some(i) => {
                let piece = slice_subrange(rest, 0, i);
                assert(piece@ =~= rest@.take(i as int));
                push_after_tag(&mut out, piece);
                let next = slice_subrange(rest, i + 1, rest.len());
                assert(next@ =~= rest@.skip(i + 1));
                rest = next;
            },
        }
    }
}

/// Pulls the human-readable text out of a CLIXML fragment.
pub fn extract_output_text(xml: &str) -> (r: String)
    ensures
        r@ == output_text(xml@),
{
    let all = text::chars_of(xml);
    let (any, joined_texts) = join_string_texts(all.as_slice());
    if any {
        return text::string_of(joined_texts.as_slice());
    }
    match find_to_string_text(all.as_slice()) {
        Some(t) => text::string_of(t.as_slice()),
        None => {
            let plain = strip_tags(all.as_slice());
            text::string_of(text::trimmed(plain.as_slice(), Blank::Unicode))
        },
    }
}

} // verus!
