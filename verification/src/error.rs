use vstd::prelude::*;
use crate::text::{dec, push_char, u64_to_dec};

verus! {

/// `Option<String>` taken by its text.
pub open spec fn opt_ref(o: Option<&str>) -> Option<Seq<char>> {
    match o {
        Some(s) => Some(s@),
        None => None,
    }
}

pub open spec fn opt_str(o: Option<String>) -> Option<Seq<char>> {
    match o {
        Some(s) => Some(s@),
        None => None,
    }
}

pub fn clone_opt_string(o: &Option<String>) -> (r: Option<String>)
    ensures
        opt_str(r) == opt_str(*o),
{
    match o {
        Some(s) => Some(s.clone()),
        None => None,
    }
}

/// Where in a source an error was found.
#[derive(Debug)]
pub struct FlowErrorLocation {
    pub path: Option<String>,
    pub line: Option<usize>,
    pub column: Option<usize>,
}

/// `path`, `line:column`, `line` or `column`, joined by a colon where a path
/// precedes them; nothing when all three are absent.
pub open spec fn describe_v(path: Option<Seq<char>>, line: Option<usize>, column: Option<usize>) -> Option<Seq<char>> {
    if path is None && line is None && column is None {
        None
    } else {
        let parts = match path {
            Some(p) => p,
            None => Seq::empty(),
        };
        let sep = if parts.len() > 0 { seq![':'] } else { Seq::empty() };
        Some(
            match (line, column) {
                (Some(l), Some(c)) => parts + sep + dec(l as nat) + seq![':'] + dec(c as nat),
                (Some(l), None) => parts + sep + dec(l as nat),
                (None, Some(c)) => parts + sep + dec(c as nat),
                (None, None) => parts,
            },
        )
    }
}

/// The text that `Display` puts into error messages: empty when nothing is
/// known, otherwise ` at ` followed by the path, a colon, and the position.
pub open spec fn suffix_v(path: Option<Seq<char>>, line: Option<usize>, column: Option<usize>) -> Seq<char> {
    if path is None && line is None && column is None {
        Seq::empty()
    } else {
        let head = match path {
            Some(p) => if line is Some || column is Some {
                p + seq![':']
            } else {
                p
            },
            None => Seq::empty(),
        };
        " at "@ + head + match (line, column) {
            (Some(l), Some(c)) => dec(l as nat) + seq![':'] + dec(c as nat),
            (Some(l), None) => dec(l as nat),
            (None, Some(c)) => dec(c as nat),
            (None, None) => Seq::empty(),
        }
    }
}

fn usize_to_dec(n: usize) -> (s: String)
    ensures
        s@ == dec(n as nat),
{
    u64_to_dec(n as u64)
}

impl FlowErrorLocation {
    pub open spec fn path_v(&self) -> Option<Seq<char>> {
        opt_str(self.path)
    }

    pub fn new(path: Option<String>, line: Option<usize>, column: Option<usize>) -> (r: Self)
        ensures
            r.path_v() == opt_str(path),
            r.line == line,
            r.column == column,
    {
        FlowErrorLocation { path, line, column }
    }

    pub fn at_path(path: String) -> (r: Self)
        ensures
            r.path_v() == Some(path@),
            r.line is None,
            r.column is None,
    {
        FlowErrorLocation::new(Some(path), None, None)
    }

    pub fn at_path_with_position(path: String, line: Option<usize>, column: Option<usize>) -> (r: Self)
        ensures
            r.path_v() == Some(path@),
            r.line == line,
            r.column == column,
    {
        FlowErrorLocation::new(Some(path), line, column)
    }

    /// A location that names nothing.
    pub fn unknown() -> (r: Self)
        ensures
            r.path is None,
            r.line is None,
            r.column is None,
    {
        FlowErrorLocation::new(None, None, None)
    }

    pub fn duplicate(&self) -> (r: Self)
        ensures
            r.path_v() == self.path_v(),
            r.line == self.line,
            r.column == self.column,
    {
        FlowErrorLocation { path: clone_opt_string(&self.path), line: self.line, column: self.column }
    }

    pub fn describe(&self) -> (r: Option<String>)
        ensures
            opt_str(r) == describe_v(self.path_v(), self.line, self.column),
    {
        if self.path.is_none() && self.line.is_none() && self.column.is_none() {
            return None;
        }
        let mut parts = String::new();
        match &self.path {
            Some(p) => {
                parts.append(p.as_str());
            },
            None => {},
        }
        let ghost p0 = parts@;
        let nonempty = parts.as_str().unicode_len() > 0;
        match (self.line, self.column) {
            (Some(line), Some(column)) => {
                if nonempty {
                    push_char(&mut parts, ':');
                }
                let ghost p1 = parts@;
                parts.append(usize_to_dec(line).as_str());
                push_char(&mut parts, ':');
                parts.append(usize_to_dec(column).as_str());
                proof {
                    assert(parts@ =~= p1 + dec(line as nat) + seq![':'] + dec(column as nat));
                }
            },
            (Some(line), None) => {
                if nonempty {
                    push_char(&mut parts, ':');
                }
                parts.append(usize_to_dec(line).as_str());
            },
            (None, Some(column)) => {
                if nonempty {
                    push_char(&mut parts, ':');
                }
                parts.append(usize_to_dec(column).as_str());
            },
            _ => {},
        }
        proof {
            let sep: Seq<char> = if p0.len() > 0 { seq![':'] } else { Seq::empty() };
            assert(p0 + sep =~= if p0.len() > 0 { p0.push(':') } else { p0 });
            assert(p0 == match self.path_v() { Some(p) => p, None => Seq::<char>::empty() });
        }
        Some(parts)
    }

    /// The location as error messages show it.
    pub fn display(&self) -> (r: String)
        ensures
            r@ == suffix_v(self.path_v(), self.line, self.column),
    {
        if self.path.is_none() && self.line.is_none() && self.column.is_none() {
            return String::new();
        }
        let mut out = String::from_str(" at ");
        match &self.path {
            Some(p) => {
                out.append(p.as_str());
                if self.line.is_some() || self.column.is_some() {
                    push_char(&mut out, ':');
                }
            },
            None => {},
        }
        let ghost head = out@;
        match (self.line, self.column) {
            (Some(line), Some(column)) => {
                out.append(usize_to_dec(line).as_str());
                push_char(&mut out, ':');
                out.append(usize_to_dec(column).as_str());
                proof {
                    assert(out@ =~= head + (dec(line as nat) + seq![':'] + dec(column as nat)));
                }
            },
            (Some(line), None) => {
                out.append(usize_to_dec(line).as_str());
            },
            (None, Some(column)) => {
                out.append(usize_to_dec(column).as_str());
            },
            _ => {
                assert(out@ =~= head + Seq::<char>::empty());
            },
        }
        proof {
            let h: Seq<char> = match self.path_v() {
                Some(p) => if self.line is Some || self.column is Some {
                    p + seq![':']
                } else {
                    p
                },
                None => Seq::empty(),
            };
            assert(head =~= " at "@ + h);
        }
        out
    }
}

/// One schema violation and where it was found.
#[derive(Debug)]
pub struct SchemaErrorDetail {
    pub message: String,
    pub location: FlowErrorLocation,
}

/// What can go wrong while loading, checking or editing a flow.
#[derive(Debug)]
pub enum FlowError {
    Yaml { message: String, location: FlowErrorLocation },
    Schema { message: String, details: Vec<SchemaErrorDetail>, location: FlowErrorLocation },
    NodeComponentShape { node_id: String, location: FlowErrorLocation },
    BadComponentKey { component: String, node_id: String, location: FlowErrorLocation },
    MissingNode { target: String, node_id: String, location: FlowErrorLocation },
    Routing { node_id: String, message: String, location: FlowErrorLocation },
    Internal { message: String, location: FlowErrorLocation },
}

pub open spec fn loc_suffix(l: FlowErrorLocation) -> Seq<char> {
    suffix_v(l.path_v(), l.line, l.column)
}

/// The message that `Display` gives each error.
pub open spec fn flow_error_text(e: FlowError) -> Seq<char> {
    match e {
        FlowError::Yaml { message, location } => "YAML parse error"@ + loc_suffix(location) + ": "@
            + message@,
        FlowError::Schema { message, location, .. } => "Schema validation failed"@ + loc_suffix(
            location,
        ) + ":\n"@ + message@,
        FlowError::NodeComponentShape { node_id, location } => "Node '"@ + node_id@
            + "' must contain exactly one component key like 'qa.process' plus optional 'routing'"@
            + loc_suffix(location),
        FlowError::BadComponentKey { component, node_id, location } => "Invalid component key '"@
            + component@ + "' in node '"@ + node_id@
            + "' (must match ^[A-Za-z][\\w.-]*\\.[\\w.-]+$)"@ + loc_suffix(location),
        FlowError::MissingNode { target, node_id, location } => "Missing node '"@ + target@
            + "' referenced in routing from '"@ + node_id@ + "'"@ + loc_suffix(location),
        FlowError::Routing { node_id, message, location } => "Invalid routing in node '"@ + node_id@
            + "'"@ + loc_suffix(location) + ": "@ + message@,
        FlowError::Internal { message, location } => "Internal error"@ + loc_suffix(location)
            + ": "@ + message@,
    }
}

impl FlowError {
    /// An internal error with a message and a location path.
    pub fn internal(message: String, path: String) -> (r: Self)
        ensures
            r matches FlowError::Internal { message: m, location: l } && m@ == message@
                && l.path_v() == Some(path@) && l.line is None && l.column is None,
    {
        FlowError::Internal { message, location: FlowErrorLocation::at_path(path) }
    }

    /// The error as a message, as `Display` renders it.
    pub fn message(&self) -> (r: String)
        ensures
            r@ == flow_error_text(*self),
    {
        match self {
            FlowError::Yaml { message, location } => {
                let mut s = String::from_str("YAML parse error");
                s.append(location.display().as_str());
                s.append(": ");
                s.append(message.as_str());
                s
            },
            FlowError::Schema { message, location, .. } => {
                let mut s = String::from_str("Schema validation failed");
                s.append(location.display().as_str());
                s.append(":\n");
                s.append(message.as_str());
                s
            },
            FlowError::NodeComponentShape { node_id, location } => {
                let mut s = String::from_str("Node '");
                s.append(node_id.as_str());
                s.append(
                    "' must contain exactly one component key like 'qa.process' plus optional 'routing'",
                );
                s.append(location.display().as_str());
                s
            },
            FlowError::BadComponentKey { component, node_id, location } => {
                let mut s = String::from_str("Invalid component key '");
                s.append(component.as_str());
                s.append("' in node '");
                s.append(node_id.as_str());
                s.append("' (must match ^[A-Za-z][\\w.-]*\\.[\\w.-]+$)");
                s.append(location.display().as_str());
                s
            },
            FlowError::MissingNode { target, node_id, location } => {
                let mut s = String::from_str("Missing node '");
                s.append(target.as_str());
                s.append("' referenced in routing from '");
                s.append(node_id.as_str());
                s.append("'");
                s.append(location.display().as_str());
                s
            },
            FlowError::Routing { node_id, message, location } => {
                let mut s = String::from_str("Invalid routing in node '");
                s.append(node_id.as_str());
                s.append("'");
                s.append(location.display().as_str());
                s.append(": ");
                s.append(message.as_str());
                s
            },
            FlowError::Internal { message, location } => {
                let mut s = String::from_str("Internal error");
                s.append(location.display().as_str());
                s.append(": ");
                s.append(message.as_str());
                s
            },
        }
    }
}

} // verus!
