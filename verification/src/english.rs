//! `English.pm`-style long names for Perl's punctuation variables (`use English`).
//! Only a subset is listed; other names have no alias.
use vstd::prelude::*;
use crate::text::str_eq;

verus! {

/// The short special-variable name that the `English` long name `name` stands for.
pub open spec fn english_alias(name: Seq<char>) -> Option<Seq<char>> {
    if name == "ARG"@ {
        Some("_"@)
    } else if name == "INPUT_LINE_NUMBER"@ {
        Some("."@)
    } else if name == "NR"@ {
        Some("."@)
    } else if name == "INPUT_RECORD_SEPARATOR"@ {
        Some("/"@)
    } else if name == "RS"@ {
        Some("/"@)
    } else if name == "OFS"@ {
        Some(","@)
    } else if name == "OUTPUT_FIELD_SEPARATOR"@ {
        Some(","@)
    } else if name == "ORS"@ {
        Some("\\"@)
    } else if name == "OUTPUT_RECORD_SEPARATOR"@ {
        Some("\\"@)
    } else if name == "LIST_SEPARATOR"@ {
        Some("\""@)
    } else if name == "SUBSCRIPT_SEPARATOR"@ {
        Some(";"@)
    } else if name == "SUBSEP"@ {
        Some(";"@)
    } else if name == "OUTPUT_AUTOFLUSH"@ {
        Some("|"@)
    } else if name == "OS_ERROR"@ {
        Some("!"@)
    } else if name == "ERRNO"@ {
        Some("!"@)
    } else if name == "EVAL_ERROR"@ {
        Some("@"@)
    } else if name == "CHILD_ERROR"@ {
        Some("?"@)
    } else if name == "PROCESS_ID"@ {
        Some("$$"@)
    } else if name == "PID"@ {
        Some("$$"@)
    } else if name == "PROGRAM_NAME"@ {
        Some("0"@)
    } else if name == "OSNAME"@ {
        Some("^O"@)
    } else if name == "BASETIME"@ {
        Some("^T"@)
    } else if name == "PERL_VERSION"@ {
        Some("^V"@)
    } else if name == "EXTENDED_OS_ERROR"@ {
        Some("^E"@)
    } else if name == "WARNING"@ {
        Some("^W"@)
    } else if name == "INTERRUPT"@ {
        Some("^C"@)
    } else if name == "MULTILINE_MATCHING"@ {
        Some("*"@)
    } else if name == "MATCH"@ {
        Some("&"@)
    } else if name == "PREMATCH"@ {
        Some("`"@)
    } else if name == "POSTMATCH"@ {
        Some("'"@)
    } else if name == "LAST_PAREN_MATCH"@ {
        Some("+"@)
    } else {
        None
    }
}

/// Each punctuation variable is reached exactly from the `English` names that
/// `English.pm` gives it: `$@` only from `EVAL_ERROR`, `$!` from `OS_ERROR` and
/// `ERRNO`, `$.` from `INPUT_LINE_NUMBER` and `NR`, and so on for every variable
/// listed. So two names share a variable only when they are synonyms there.
pub proof fn law_english_targets(name: Seq<char>)
    ensures
        (english_alias(name) == Some("_"@)) == (name == "ARG"@),
        (english_alias(name) == Some("."@)) == (name == "INPUT_LINE_NUMBER"@ || name == "NR"@),
        (english_alias(name) == Some("/"@)) == (name == "INPUT_RECORD_SEPARATOR"@ || name == "RS"@),
        (english_alias(name) == Some(","@)) == (name == "OFS"@ || name == "OUTPUT_FIELD_SEPARATOR"@),
        (english_alias(name) == Some("\\"@)) == (name == "ORS"@ || name == "OUTPUT_RECORD_SEPARATOR"@),
        (english_alias(name) == Some("\""@)) == (name == "LIST_SEPARATOR"@),
        (english_alias(name) == Some(";"@)) == (name == "SUBSCRIPT_SEPARATOR"@ || name == "SUBSEP"@),
        (english_alias(name) == Some("|"@)) == (name == "OUTPUT_AUTOFLUSH"@),
        (english_alias(name) == Some("!"@)) == (name == "OS_ERROR"@ || name == "ERRNO"@),
        (english_alias(name) == Some("@"@)) == (name == "EVAL_ERROR"@),
        (english_alias(name) == Some("?"@)) == (name == "CHILD_ERROR"@),
        (english_alias(name) == Some("$$"@)) == (name == "PROCESS_ID"@ || name == "PID"@),
        (english_alias(name) == Some("0"@)) == (name == "PROGRAM_NAME"@),
        (english_alias(name) == Some("^O"@)) == (name == "OSNAME"@),
        (english_alias(name) == Some("^T"@)) == (name == "BASETIME"@),
        (english_alias(name) == Some("^V"@)) == (name == "PERL_VERSION"@),
        (english_alias(name) == Some("^E"@)) == (name == "EXTENDED_OS_ERROR"@),
        (english_alias(name) == Some("^W"@)) == (name == "WARNING"@),
        (english_alias(name) == Some("^C"@)) == (name == "INTERRUPT"@),
        (english_alias(name) == Some("*"@)) == (name == "MULTILINE_MATCHING"@),
        (english_alias(name) == Some("&"@)) == (name == "MATCH"@),
        (english_alias(name) == Some("`"@)) == (name == "PREMATCH"@),
        (english_alias(name) == Some("'"@)) == (name == "POSTMATCH"@),
        (english_alias(name) == Some("+"@)) == (name == "LAST_PAREN_MATCH"@),
{
    reveal_strlit("_");
    assert("_"@.len() == 1);
    assert("_"@[0] == '_');
    reveal_strlit("ARG");
    assert("ARG"@.len() == 3);
    assert("ARG"@[0] == 'A');
    assert("ARG"@[1] == 'R');
    reveal_strlit(".");
    assert("."@.len() == 1);
    assert("."@[0] == '.');
    reveal_strlit("INPUT_LINE_NUMBER");
    assert("INPUT_LINE_NUMBER"@.len() == 17);
    assert("INPUT_LINE_NUMBER"@[0] == 'I');
    assert("INPUT_LINE_NUMBER"@[1] == 'N');
    reveal_strlit("NR");
    assert("NR"@.len() == 2);
    assert("NR"@[0] == 'N');
    assert("NR"@[1] == 'R');
    reveal_strlit("/");
    assert("/"@.len() == 1);
    assert("/"@[0] == '/');
    reveal_strlit("INPUT_RECORD_SEPARATOR");
    assert("INPUT_RECORD_SEPARATOR"@.len() == 22);
    assert("INPUT_RECORD_SEPARATOR"@[0] == 'I');
    assert("INPUT_RECORD_SEPARATOR"@[1] == 'N');
    reveal_strlit("RS");
    assert("RS"@.len() == 2);
    assert("RS"@[0] == 'R');
    assert("RS"@[1] == 'S');
    reveal_strlit(",");
    assert(","@.len() == 1);
    assert(","@[0] == ',');
    reveal_strlit("OFS");
    assert("OFS"@.len() == 3);
    assert("OFS"@[0] == 'O');
    assert("OFS"@[1] == 'F');
    reveal_strlit("OUTPUT_FIELD_SEPARATOR");
    assert("OUTPUT_FIELD_SEPARATOR"@.len() == 22);
    assert("OUTPUT_FIELD_SEPARATOR"@[0] == 'O');
    assert("OUTPUT_FIELD_SEPARATOR"@[1] == 'U');
    reveal_strlit("\\");
    assert("\\"@.len() == 1);
    assert("\\"@[0] == '\\');
    reveal_strlit("ORS");
    assert("ORS"@.len() == 3);
    assert("ORS"@[0] == 'O');
    assert("ORS"@[1] == 'R');
    reveal_strlit("OUTPUT_RECORD_SEPARATOR");
    assert("OUTPUT_RECORD_SEPARATOR"@.len() == 23);
    assert("OUTPUT_RECORD_SEPARATOR"@[0] == 'O');
    assert("OUTPUT_RECORD_SEPARATOR"@[1] == 'U');
    reveal_strlit("\"");
    assert("\""@.len() == 1);
    assert("\""@[0] == '"');
    reveal_strlit("LIST_SEPARATOR");
    assert("LIST_SEPARATOR"@.len() == 14);
    assert("LIST_SEPARATOR"@[0] == 'L');
    assert("LIST_SEPARATOR"@[1] == 'I');
    reveal_strlit(";");
    assert(";"@.len() == 1);
    assert(";"@[0] == ';');
    reveal_strlit("SUBSCRIPT_SEPARATOR");
    assert("SUBSCRIPT_SEPARATOR"@.len() == 19);
    assert("SUBSCRIPT_SEPARATOR"@[0] == 'S');
    assert("SUBSCRIPT_SEPARATOR"@[1] == 'U');
    reveal_strlit("SUBSEP");
    assert("SUBSEP"@.len() == 6);
    assert("SUBSEP"@[0] == 'S');
    assert("SUBSEP"@[1] == 'U');
    reveal_strlit("|");
    assert("|"@.len() == 1);
    assert("|"@[0] == '|');
    reveal_strlit("OUTPUT_AUTOFLUSH");
    assert("OUTPUT_AUTOFLUSH"@.len() == 16);
    assert("OUTPUT_AUTOFLUSH"@[0] == 'O');
    assert("OUTPUT_AUTOFLUSH"@[1] == 'U');
    reveal_strlit("!");
    assert("!"@.len() == 1);
    assert("!"@[0] == '!');
    reveal_strlit("OS_ERROR");
    assert("OS_ERROR"@.len() == 8);
    assert("OS_ERROR"@[0] == 'O');
    assert("OS_ERROR"@[1] == 'S');
    reveal_strlit("ERRNO");
    assert("ERRNO"@.len() == 5);
    assert("ERRNO"@[0] == 'E');
    assert("ERRNO"@[1] == 'R');
    reveal_strlit("@");
    assert("@"@.len() == 1);
    assert("@"@[0] == '@');
    reveal_strlit("EVAL_ERROR");
    assert("EVAL_ERROR"@.len() == 10);
    assert("EVAL_ERROR"@[0] == 'E');
    assert("EVAL_ERROR"@[1] == 'V');
    reveal_strlit("?");
    assert("?"@.len() == 1);
    assert("?"@[0] == '?');
    reveal_strlit("CHILD_ERROR");
    assert("CHILD_ERROR"@.len() == 11);
    assert("CHILD_ERROR"@[0] == 'C');
    assert("CHILD_ERROR"@[1] == 'H');
    reveal_strlit("$$");
    assert("$$"@.len() == 2);
    assert("$$"@[0] == '$');
    assert("$$"@[1] == '$');
    reveal_strlit("PROCESS_ID");
    assert("PROCESS_ID"@.len() == 10);
    assert("PROCESS_ID"@[0] == 'P');
    assert("PROCESS_ID"@[1] == 'R');
    reveal_strlit("PID");
    assert("PID"@.len() == 3);
    assert("PID"@[0] == 'P');
    assert("PID"@[1] == 'I');
    reveal_strlit("0");
    assert("0"@.len() == 1);
    assert("0"@[0] == '0');
    reveal_strlit("PROGRAM_NAME");
    assert("PROGRAM_NAME"@.len() == 12);
    assert("PROGRAM_NAME"@[0] == 'P');
    assert("PROGRAM_NAME"@[1] == 'R');
    reveal_strlit("^O");
    assert("^O"@.len() == 2);
    assert("^O"@[0] == '^');
    assert("^O"@[1] == 'O');
    reveal_strlit("OSNAME");
    assert("OSNAME"@.len() == 6);
    assert("OSNAME"@[0] == 'O');
    assert("OSNAME"@[1] == 'S');
    reveal_strlit("^T");
    assert("^T"@.len() == 2);
    assert("^T"@[0] == '^');
    assert("^T"@[1] == 'T');
    reveal_strlit("BASETIME");
    assert("BASETIME"@.len() == 8);
    assert("BASETIME"@[0] == 'B');
    assert("BASETIME"@[1] == 'A');
    reveal_strlit("^V");
    assert("^V"@.len() == 2);
    assert("^V"@[0] == '^');
    assert("^V"@[1] == 'V');
    reveal_strlit("PERL_VERSION");
    assert("PERL_VERSION"@.len() == 12);
    assert("PERL_VERSION"@[0] == 'P');
    assert("PERL_VERSION"@[1] == 'E');
    reveal_strlit("^E");
    assert("^E"@.len() == 2);
    assert("^E"@[0] == '^');
    assert("^E"@[1] == 'E');
    reveal_strlit("EXTENDED_OS_ERROR");
    assert("EXTENDED_OS_ERROR"@.len() == 17);
    assert("EXTENDED_OS_ERROR"@[0] == 'E');
    assert("EXTENDED_OS_ERROR"@[1] == 'X');
    reveal_strlit("^W");
    assert("^W"@.len() == 2);
    assert("^W"@[0] == '^');
    assert("^W"@[1] == 'W');
    reveal_strlit("WARNING");
    assert("WARNING"@.len() == 7);
    assert("WARNING"@[0] == 'W');
    assert("WARNING"@[1] == 'A');
    reveal_strlit("^C");
    assert("^C"@.len() == 2);
    assert("^C"@[0] == '^');
    assert("^C"@[1] == 'C');
    reveal_strlit("INTERRUPT");
    assert("INTERRUPT"@.len() == 9);
    assert("INTERRUPT"@[0] == 'I');
    assert("INTERRUPT"@[1] == 'N');
    reveal_strlit("*");
    assert("*"@.len() == 1);
    assert("*"@[0] == '*');
    reveal_strlit("MULTILINE_MATCHING");
    assert("MULTILINE_MATCHING"@.len() == 18);
    assert("MULTILINE_MATCHING"@[0] == 'M');
    assert("MULTILINE_MATCHING"@[1] == 'U');
    reveal_strlit("&");
    assert("&"@.len() == 1);
    assert("&"@[0] == '&');
    reveal_strlit("MATCH");
    assert("MATCH"@.len() == 5);
    assert("MATCH"@[0] == 'M');
    assert("MATCH"@[1] == 'A');
    reveal_strlit("`");
    assert("`"@.len() == 1);
    assert("`"@[0] == '`');
    reveal_strlit("PREMATCH");
    assert("PREMATCH"@.len() == 8);
    assert("PREMATCH"@[0] == 'P');
    assert("PREMATCH"@[1] == 'R');
    reveal_strlit("'");
    assert("'"@.len() == 1);
    assert("'"@[0] == '\'');
    reveal_strlit("POSTMATCH");
    assert("POSTMATCH"@.len() == 9);
    assert("POSTMATCH"@[0] == 'P');
    assert("POSTMATCH"@[1] == 'O');
    reveal_strlit("+");
    assert("+"@.len() == 1);
    assert("+"@[0] == '+');
    reveal_strlit("LAST_PAREN_MATCH");
    assert("LAST_PAREN_MATCH"@.len() == 16);
    assert("LAST_PAREN_MATCH"@[0] == 'L');
    assert("LAST_PAREN_MATCH"@[1] == 'A');
}

/// If `name` is a known `English` long name, returns the short special name
/// (`_`, `.`, ...); otherwise `None`.
pub fn scalar_alias(name: &str) -> (r: Option<&'static str>)
    ensures
        r is None <==> english_alias(name@) is None,
        r matches Some(v) ==> english_alias(name@) == Some(v@),
{
    if str_eq(name, "ARG") {
        return Some("_");
    }
    if str_eq(name, "INPUT_LINE_NUMBER") {
        return Some(".");
    }
    if str_eq(name, "NR") {
        return Some(".");
    }
    if str_eq(name, "INPUT_RECORD_SEPARATOR") {
        return Some("/");
    }
    if str_eq(name, "RS") {
        return Some("/");
    }
    if str_eq(name, "OFS") {
        return Some(",");
    }
    if str_eq(name, "OUTPUT_FIELD_SEPARATOR") {
        return Some(",");
    }
    if str_eq(name, "ORS") {
        return Some("\\");
    }
    if str_eq(name, "OUTPUT_RECORD_SEPARATOR") {
        return Some("\\");
    }
    if str_eq(name, "LIST_SEPARATOR") {
        return Some("\"");
    }
    if str_eq(name, "SUBSCRIPT_SEPARATOR") {
        return Some(";");
    }
    if str_eq(name, "SUBSEP") {
        return Some(";");
    }
    if str_eq(name, "OUTPUT_AUTOFLUSH") {
        return Some("|");
    }
    if str_eq(name, "OS_ERROR") {
        return Some("!");
    }
    if str_eq(name, "ERRNO") {
        return Some("!");
    }
    if str_eq(name, "EVAL_ERROR") {
        return Some("@");
    }
    if str_eq(name, "CHILD_ERROR") {
        return Some("?");
    }
    if str_eq(name, "PROCESS_ID") {
        return Some("$$");
    }
    if str_eq(name, "PID") {
        return Some("$$");
    }
    if str_eq(name, "PROGRAM_NAME") {
        return Some("0");
    }
    if str_eq(name, "OSNAME") {
        return Some("^O");
    }
    if str_eq(name, "BASETIME") {
        return Some("^T");
    }
    if str_eq(name, "PERL_VERSION") {
        return Some("^V");
    }
    if str_eq(name, "EXTENDED_OS_ERROR") {
        return Some("^E");
    }
    if str_eq(name, "WARNING") {
        return Some("^W");
    }
    if str_eq(name, "INTERRUPT") {
        return Some("^C");
    }
    if str_eq(name, "MULTILINE_MATCHING") {
        return Some("*");
    }
    if str_eq(name, "MATCH") {
        return Some("&");
    }
    if str_eq(name, "PREMATCH") {
        return Some("`");
    }
    if str_eq(name, "POSTMATCH") {
        return Some("'");
    }
    if str_eq(name, "LAST_PAREN_MATCH") {
        return Some("+");
    }
    None
}

} // verus!
