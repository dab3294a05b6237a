use vstd::prelude::*;

verus! {

/// The source of the builtin shapes, in the language itself. Attribute
/// values are quoted with `'`, since a string literal cannot hold `"`.
pub const STDLIB_SOURCE: &'static str = "shape circle(cx = 0, cy = 0, r = 10, fill = \"hotpink\", stroke = \"none\", strokeWidth = 0) {\n\
  svg(value: \"<circle cx='\" + cx + \"' cy='\" + cy + \"' r='\" + r + \"' fill='\" + fill + \"' stroke='\" + stroke + \"' stroke-width='\" + strokeWidth + \"'/>\")\n\
}\n\
\n\
shape rect(x = 0, y = 0, width = 10, height = 10, fill = \"hotpink\", stroke = \"none\", strokeWidth = 0) {\n\
  svg(value: \"<rect x='\" + x + \"' y='\" + y + \"' width='\" + width + \"' height='\" + height + \"' fill='\" + fill + \"' stroke='\" + stroke + \"' stroke-width='\" + strokeWidth + \"'/>\")\n\
}\n\
";

/// The source of the builtin shapes.
pub fn get_stdlib() -> (s: String)
    ensures
        s@ == STDLIB_SOURCE@,
{
    String::from_str(STDLIB_SOURCE)
}

} // verus!
