//! The tables of built-in SKILL functions, Allegro SKILL functions and
//! documentation of core forms.
use vstd::prelude::*;

verus! {

/// The characters of each string of a table of triples.
pub open spec fn triples_view(v: Seq<(&'static str, &'static str, &'static str)>) -> Seq<(Seq<char>, Seq<char>, Seq<char>)> {
    v.map_values(|p: (&'static str, &'static str, &'static str)| (p.0@, p.1@, p.2@))
}

/// The characters of each string of a table of pairs.
pub open spec fn pairs_view(v: Seq<(&'static str, &'static str)>) -> Seq<(Seq<char>, Seq<char>)> {
    v.map_values(|p: (&'static str, &'static str)| (p.0@, p.1@))
}

/// The built-in SKILL functions: name, signature, description.
pub open spec fn builtins() -> Seq<(Seq<char>, Seq<char>, Seq<char>)> {
    seq![
        ("car"@, "(car list)"@, "Returns the first element of a list"@),
        ("cdr"@, "(cdr list)"@, "Returns the rest of a list after the first element"@),
        ("cons"@, "(cons x list)"@, "Constructs a new list by prepending x to list"@),
        ("list"@, "(list ...)"@, "Creates a list of the given arguments"@),
        ("append"@, "(append list1 list2)"@, "Appends two lists together"@),
        ("reverse"@, "(reverse list)"@, "Reverses a list"@),
        ("length"@, "(length list)"@, "Returns the length of a list"@),
        ("nth"@, "(nth n list)"@, "Returns the nth element of a list"@),
        ("member"@, "(member item list)"@, "Checks if item is in list"@),
        ("assoc"@, "(key alist)"@, "Looks up key in association list"@),
        ("subst"@, "(new old tree)"@, "Substitutes new for old in tree"@),
        ("sort"@, "(list predicate)"@, "Sorts a list using the given predicate"@),
        ("mapcar"@, "(function list)"@, "Applies function to each element of list"@),
        ("mapc"@, "(function list)"@, "Like mapcar but returns nil"@),
        ("mapcan"@, "(function list)"@, "Like mapcar but concatenates results"@),
        ("filter"@, "(predicate list)"@, "Filters list by predicate"@),
        ("reduce"@, "(function list)"@, "Reduces list using function"@),
        ("apply"@, "(function args)"@, "Applies function to args"@),
        ("funcall"@, "(function ...)"@, "Calls function with arguments"@),
        ("eval"@, "(expr)"@, "Evaluates an expression"@),
        ("quote"@, "(expr)"@, "Quotes an expression"@),
        ("lambda"@, "(args body)"@, "Creates an anonymous function"@),
        ("let"@, "(bindings body)"@, "Local variable bindings"@),
        ("letrec"@, "(bindings body)"@, "Recursive local bindings"@),
        ("letseq"@, "(bindings body)"@, "Sequential local bindings"@),
        ("setq"@, "(var value)"@, "Sets a variable's value"@),
        ("if"@, "(test then else)"@, "Conditional expression"@),
        ("cond"@, "(clauses...)"@, "Multi-branch conditional"@),
        ("case"@, "(key clauses...)"@, "Case dispatch"@),
        ("when"@, "(test body...)"@, "Execute body when test is true"@),
        ("unless"@, "(test body...)"@, "Execute body when test is false"@),
        ("progn"@, "(body...)"@, "Execute forms sequentially"@),
        ("prog"@, "(bindings body...)"@, "Program with local variables"@),
        ("foreach"@, "(var list body...)"@, "Iterate over list"@),
        ("for"@, "(var start end body...)"@, "Counting loop"@),
        ("while"@, "(test body...)"@, "While loop"@),
        ("return"@, "(value)"@, "Return from function"@),
        ("break"@, "()"@, "Break from loop"@),
        ("continue"@, "()"@, "Continue to next iteration"@),
        ("error"@, "(message)"@, "Signal an error"@),
        ("warn"@, "(message)"@, "Display a warning"@),
        ("printf"@, "(format ...)"@, "Formatted output"@),
        ("sprintf"@, "(format ...)"@, "Formatted string output"@),
        ("fprintf"@, "(port format ...)"@, "Formatted output to port"@),
        ("gets"@, "()"@, "Read a line from input"@),
        ("read"@, "()"@, "Read an expression"@),
        ("print"@, "(expr)"@, "Print an expression"@),
        ("println"@, "(expr)"@, "Print with newline"@),
        ("open"@, "(filename mode)"@, "Open a file"@),
        ("close"@, "(port)"@, "Close a port"@),
        ("infile"@, "(filename)"@, "Open file for input"@),
        ("outfile"@, "(filename)"@, "Open file for output"@),
        ("parseString"@, "(string parser)"@, "Parse a string"@),
        ("makeTable"@, "(size)"@, "Create a hash table"@),
        ("table"@, "(key value...)"@, "Create a table"@),
        ("get"@, "(table key)"@, "Get value from table"@),
        ("put"@, "(table key value)"@, "Put value in table"@),
        ("exit"@, "(code)"@, "Exit the program"@),
        ("type"@, "(expr)"@, "Get the type of an expression"@),
        ("typep"@, "(expr type)"@, "Check if expr is of type"@),
        ("stringp"@, "(expr)"@, "Check if expr is a string"@),
        ("fixp"@, "(expr)"@, "Check if expr is an integer"@),
        ("floatp"@, "(expr)"@, "Check if expr is a float"@),
        ("listp"@, "(expr)"@, "Check if expr is a list"@),
        ("boundp"@, "(symbol)"@, "Check if symbol is bound"@),
        ("null"@, "(expr)"@, "Check if expr is null"@),
        ("not"@, "(expr)"@, "Logical negation"@),
        ("eq"@, "(a b)"@, "Test for identity equality"@),
        ("eql"@, "(a b)"@, "Test for value equality"@),
        ("equal"@, "(a b)"@, "Test for structural equality"@),
        ("="@, "(a b)"@, "Numeric equality"@),
        ("<"@, "(a b)"@, "Less than"@),
        (">"@, "(a b)"@, "Greater than"@),
        ("<="@, "(a b)"@, "Less than or equal"@),
        (">="@, "(a b)"@, "Greater than or equal"@),
        ("+"@, "(...)"@, "Addition"@),
        ("-"@, "(...)"@, "Subtraction"@),
        ("*"@, "(...)"@, "Multiplication"@),
        ("/"@, "(...)"@, "Division"@),
        ("%"@, "(a b)"@, "Modulo"@),
        ("1+"@, "(x)"@, "Add 1"@),
        ("1-"@, "(x)"@, "Subtract 1"@),
        ("abs"@, "(x)"@, "Absolute value"@),
        ("max"@, "(...)"@, "Maximum value"@),
        ("min"@, "(...)"@, "Minimum value"@),
        ("sqrt"@, "(x)"@, "Square root"@),
        ("exp"@, "(x)"@, "Exponential"@),
        ("log"@, "(x)"@, "Natural logarithm"@),
        ("sin"@, "(x)"@, "Sine"@),
        ("cos"@, "(x)"@, "Cosine"@),
        ("tan"@, "(x)"@, "Tangent"@),
        ("random"@, "()"@, "Random number"@),
        ("truncate"@, "(x)"@, "Truncate to integer"@),
        ("round"@, "(x)"@, "Round to nearest integer"@),
        ("floor"@, "(x)"@, "Floor"@),
        ("ceiling"@, "(x)"@, "Ceiling"@),
        ("concat"@, "(...)"@, "Concatenate strings"@),
        ("strlen"@, "(string)"@, "String length"@),
        ("substring"@, "(string start end)"@, "Substring"@),
        ("strcat"@, "(...)"@, "String concatenation"@),
        ("strcmp"@, "(s1 s2)"@, "String comparison"@),
        ("stringToSymbol"@, "(string)"@, "Convert string to symbol"@),
        ("symbolToString"@, "(symbol)"@, "Convert symbol to string"@),
        ("upperCase"@, "(string)"@, "Convert to uppercase"@),
        ("lowerCase"@, "(string)"@, "Convert to lowercase"@),
    ]
}

/// The built-in SKILL functions.
pub fn skill_builtins() -> (r: Vec<(&'static str, &'static str, &'static str)>)
    ensures
        triples_view(r@) == builtins(),
{
    let v = vec![
        ("car", "(car list)", "Returns the first element of a list"),
        ("cdr", "(cdr list)", "Returns the rest of a list after the first element"),
        ("cons", "(cons x list)", "Constructs a new list by prepending x to list"),
        ("list", "(list ...)", "Creates a list of the given arguments"),
        ("append", "(append list1 list2)", "Appends two lists together"),
        ("reverse", "(reverse list)", "Reverses a list"),
        ("length", "(length list)", "Returns the length of a list"),
        ("nth", "(nth n list)", "Returns the nth element of a list"),
        ("member", "(member item list)", "Checks if item is in list"),
        ("assoc", "(key alist)", "Looks up key in association list"),
        ("subst", "(new old tree)", "Substitutes new for old in tree"),
        ("sort", "(list predicate)", "Sorts a list using the given predicate"),
        ("mapcar", "(function list)", "Applies function to each element of list"),
        ("mapc", "(function list)", "Like mapcar but returns nil"),
        ("mapcan", "(function list)", "Like mapcar but concatenates results"),
        ("filter", "(predicate list)", "Filters list by predicate"),
        ("reduce", "(function list)", "Reduces list using function"),
        ("apply", "(function args)", "Applies function to args"),
        ("funcall", "(function ...)", "Calls function with arguments"),
        ("eval", "(expr)", "Evaluates an expression"),
        ("quote", "(expr)", "Quotes an expression"),
        ("lambda", "(args body)", "Creates an anonymous function"),
        ("let", "(bindings body)", "Local variable bindings"),
        ("letrec", "(bindings body)", "Recursive local bindings"),
        ("letseq", "(bindings body)", "Sequential local bindings"),
        ("setq", "(var value)", "Sets a variable's value"),
        ("if", "(test then else)", "Conditional expression"),
        ("cond", "(clauses...)", "Multi-branch conditional"),
        ("case", "(key clauses...)", "Case dispatch"),
        ("when", "(test body...)", "Execute body when test is true"),
        ("unless", "(test body...)", "Execute body when test is false"),
        ("progn", "(body...)", "Execute forms sequentially"),
        ("prog", "(bindings body...)", "Program with local variables"),
        ("foreach", "(var list body...)", "Iterate over list"),
        ("for", "(var start end body...)", "Counting loop"),
        ("while", "(test body...)", "While loop"),
        ("return", "(value)", "Return from function"),
        ("break", "()", "Break from loop"),
        ("continue", "()", "Continue to next iteration"),
        ("error", "(message)", "Signal an error"),
        ("warn", "(message)", "Display a warning"),
        ("printf", "(format ...)", "Formatted output"),
        ("sprintf", "(format ...)", "Formatted string output"),
        ("fprintf", "(port format ...)", "Formatted output to port"),
        ("gets", "()", "Read a line from input"),
        ("read", "()", "Read an expression"),
        ("print", "(expr)", "Print an expression"),
        ("println", "(expr)", "Print with newline"),
        ("open", "(filename mode)", "Open a file"),
        ("close", "(port)", "Close a port"),
        ("infile", "(filename)", "Open file for input"),
        ("outfile", "(filename)", "Open file for output"),
        ("parseString", "(string parser)", "Parse a string"),
        ("makeTable", "(size)", "Create a hash table"),
        ("table", "(key value...)", "Create a table"),
        ("get", "(table key)", "Get value from table"),
        ("put", "(table key value)", "Put value in table"),
        ("exit", "(code)", "Exit the program"),
        ("type", "(expr)", "Get the type of an expression"),
        ("typep", "(expr type)", "Check if expr is of type"),
        ("stringp", "(expr)", "Check if expr is a string"),
        ("fixp", "(expr)", "Check if expr is an integer"),
        ("floatp", "(expr)", "Check if expr is a float"),
        ("listp", "(expr)", "Check if expr is a list"),
        ("boundp", "(symbol)", "Check if symbol is bound"),
        ("null", "(expr)", "Check if expr is null"),
        ("not", "(expr)", "Logical negation"),
        ("eq", "(a b)", "Test for identity equality"),
        ("eql", "(a b)", "Test for value equality"),
        ("equal", "(a b)", "Test for structural equality"),
        ("=", "(a b)", "Numeric equality"),
        ("<", "(a b)", "Less than"),
        (">", "(a b)", "Greater than"),
        ("<=", "(a b)", "Less than or equal"),
        (">=", "(a b)", "Greater than or equal"),
        ("+", "(...)", "Addition"),
        ("-", "(...)", "Subtraction"),
        ("*", "(...)", "Multiplication"),
        ("/", "(...)", "Division"),
        ("%", "(a b)", "Modulo"),
        ("1+", "(x)", "Add 1"),
        ("1-", "(x)", "Subtract 1"),
        ("abs", "(x)", "Absolute value"),
        ("max", "(...)", "Maximum value"),
        ("min", "(...)", "Minimum value"),
        ("sqrt", "(x)", "Square root"),
        ("exp", "(x)", "Exponential"),
        ("log", "(x)", "Natural logarithm"),
        ("sin", "(x)", "Sine"),
        ("cos", "(x)", "Cosine"),
        ("tan", "(x)", "Tangent"),
        ("random", "()", "Random number"),
        ("truncate", "(x)", "Truncate to integer"),
        ("round", "(x)", "Round to nearest integer"),
        ("floor", "(x)", "Floor"),
        ("ceiling", "(x)", "Ceiling"),
        ("concat", "(...)", "Concatenate strings"),
        ("strlen", "(string)", "String length"),
        ("substring", "(string start end)", "Substring"),
        ("strcat", "(...)", "String concatenation"),
        ("strcmp", "(s1 s2)", "String comparison"),
        ("stringToSymbol", "(string)", "Convert string to symbol"),
        ("symbolToString", "(symbol)", "Convert symbol to string"),
        ("upperCase", "(string)", "Convert to uppercase"),
        ("lowerCase", "(string)", "Convert to lowercase"),
    ];
    assert(triples_view(v@) =~= builtins());
    v
}

/// The Allegro SKILL functions: name, signature, description.
pub open spec fn allegro_functions() -> Seq<(Seq<char>, Seq<char>, Seq<char>)> {
    seq![
        ("dbOpenCellViewByType"@, "(lib cell view type)"@, "Open a cell view"@),
        ("dbCreateRect"@, "(layer purpose bBox)"@, "Create a rectangle"@),
        ("dbCreatePolygon"@, "(layer purpose points)"@, "Create a polygon"@),
        ("dbCreatePath"@, "(layer purpose width points)"@, "Create a path"@),
        ("dbCreateLabel"@, "(layer purpose text height)"@, "Create a label"@),
        ("dbCreateInst"@, "(cellView master transform)"@, "Create an instance"@),
        ("dbCreateInstByMasterName"@, "(cellView lib cell view transform)"@, "Create instance by name"@),
        ("dbSave"@, "(cellView)"@, "Save the cell view"@),
        ("dbClose"@, "(cellView)"@, "Close the cell view"@),
        ("dbReopen"@, "(cellView)"@, "Reopen the cell view"@),
        ("dbSetq"@, "(var value)"@, "Set variable in database"@),
        ("dbGetq"@, "(var)"@, "Get variable from database"@),
        ("geGetWindowCellView"@, "()"@, "Get current cell view"@),
        ("geGetEditCellView"@, "()"@, "Get edit cell view"@),
        ("hiGetCIWindow"@, "()"@, "Get current CI window"@),
        ("hiBindKey"@, "(window key callback)"@, "Bind a key"@),
        ("hiCreateForm"@, "(title fields)"@, "Create a form"@),
        ("hiCreateAppDialog"@, "(title fields)"@, "Create application dialog"@),
        ("axlFormCreate"@, "(title fields)"@, "Create AXL form"@),
        ("axlFormDisplay"@, "(form)"@, "Display a form"@),
        ("axlFormClose"@, "(form)"@, "Close a form"@),
        ("axlShell"@, "(command)"@, "Execute shell command"@),
        ("axlTempFile"@, "()"@, "Create temp file"@),
        ("axlGetProjectName"@, "()"@, "Get project name"@),
        ("schCreateInst"@, "(cellView master pinMap)"@, "Create schematic instance"@),
        ("schCreateNet"@, "(cellView name)"@, "Create schematic net"@),
        ("schCreatePin"@, "(cellView name dir)"@, "Create schematic pin"@),
        ("schCheck"@, "(cellView)"@, "Check schematic"@),
        ("schSnapshot"@, "(cellView)"@, "Take schematic snapshot"@),
        ("leaCreateCellView"@, "(lib cell view)"@, "Create LEA cell view"@),
        ("leaSave"@, "(cellView)"@, "Save LEA cell view"@),
        ("leaClose"@, "(cellView)"@, "Close LEA cell view"@),
    ]
}

/// The Allegro SKILL functions.
pub fn allegro_skill_functions() -> (r: Vec<(&'static str, &'static str, &'static str)>)
    ensures
        triples_view(r@) == allegro_functions(),
{
    let v = vec![
        ("dbOpenCellViewByType", "(lib cell view type)", "Open a cell view"),
        ("dbCreateRect", "(layer purpose bBox)", "Create a rectangle"),
        ("dbCreatePolygon", "(layer purpose points)", "Create a polygon"),
        ("dbCreatePath", "(layer purpose width points)", "Create a path"),
        ("dbCreateLabel", "(layer purpose text height)", "Create a label"),
        ("dbCreateInst", "(cellView master transform)", "Create an instance"),
        ("dbCreateInstByMasterName", "(cellView lib cell view transform)", "Create instance by name"),
        ("dbSave", "(cellView)", "Save the cell view"),
        ("dbClose", "(cellView)", "Close the cell view"),
        ("dbReopen", "(cellView)", "Reopen the cell view"),
        ("dbSetq", "(var value)", "Set variable in database"),
        ("dbGetq", "(var)", "Get variable from database"),
        ("geGetWindowCellView", "()", "Get current cell view"),
        ("geGetEditCellView", "()", "Get edit cell view"),
        ("hiGetCIWindow", "()", "Get current CI window"),
        ("hiBindKey", "(window key callback)", "Bind a key"),
        ("hiCreateForm", "(title fields)", "Create a form"),
        ("hiCreateAppDialog", "(title fields)", "Create application dialog"),
        ("axlFormCreate", "(title fields)", "Create AXL form"),
        ("axlFormDisplay", "(form)", "Display a form"),
        ("axlFormClose", "(form)", "Close a form"),
        ("axlShell", "(command)", "Execute shell command"),
        ("axlTempFile", "()", "Create temp file"),
        ("axlGetProjectName", "()", "Get project name"),
        ("schCreateInst", "(cellView master pinMap)", "Create schematic instance"),
        ("schCreateNet", "(cellView name)", "Create schematic net"),
        ("schCreatePin", "(cellView name dir)", "Create schematic pin"),
        ("schCheck", "(cellView)", "Check schematic"),
        ("schSnapshot", "(cellView)", "Take schematic snapshot"),
        ("leaCreateCellView", "(lib cell view)", "Create LEA cell view"),
        ("leaSave", "(cellView)", "Save LEA cell view"),
        ("leaClose", "(cellView)", "Close LEA cell view"),
    ];
    assert(triples_view(v@) =~= allegro_functions());
    v
}

/// The documentation of the core SKILL forms: name, Markdown text.
pub open spec fn docs() -> Seq<(Seq<char>, Seq<char>)> {
    seq![
        ("defun"@, "**defun** - Define a new function\n\n```skill\n(defun name (params...) body...)\n```\n\nCreates a new function with the given name, parameters, and body."@),
        ("procedure"@, "**procedure** - Define a procedure (alias for defun)\n\n```skill\n(procedure name (params...) body...)\n```\n\nSame as defun, creates a new function."@),
        ("let"@, "**let** - Create local variable bindings\n\n```skill\n(let ((var1 val1) (var2 val2)) body...)\n```\n\nCreates local variables with the given bindings."@),
        ("letrec"@, "**letrec** - Create recursive local bindings\n\n```skill\n(letrec ((var1 val1) (var2 val2)) body...)\n```\n\nLike let, but bindings can reference each other."@),
        ("letseq"@, "**letseq** - Create sequential local bindings\n\n```skill\n(letseq ((var1 val1) (var2 val2)) body...)\n```\n\nLike let, but bindings are evaluated sequentially."@),
        ("setq"@, "**setq** - Set a variable's value\n\n```skill\n(setq var value)\n```\n\nSets the variable to the given value."@),
        ("if"@, "**if** - Conditional expression\n\n```skill\n(if test then else)\n```\n\nEvaluates test, then evaluates then or else based on the result."@),
        ("cond"@, "**cond** - Multi-branch conditional\n\n```skill\n(cond (test1 body1...) (test2 body2...) ...)\n```\n\nEvaluates each test in order and executes the body of the first true test."@),
        ("case"@, "**case** - Case dispatch\n\n```skill\n(case key (value1 body1...) (value2 body2...) ...)\n```\n\nMatches key against values and executes the corresponding body."@),
        ("when"@, "**when** - Conditional execution\n\n```skill\n(when test body...)\n```\n\nExecutes body only when test is true."@),
        ("unless"@, "**unless** - Negative conditional execution\n\n```skill\n(unless test body...)\n```\n\nExecutes body only when test is false."@),
        ("progn"@, "**progn** - Sequential execution\n\n```skill\n(progn body...)\n```\n\nExecutes forms sequentially and returns the last result."@),
        ("prog"@, "**prog** - Program with local variables\n\n```skill\n(prog (vars...) body...)\n```\n\nExecutes body with local variables."@),
        ("foreach"@, "**foreach** - Iterate over list\n\n```skill\n(foreach var list body...)\n```\n\nIterates over list, binding var to each element."@),
        ("for"@, "**for** - Counting loop\n\n```skill\n(for var start end body...)\n```\n\nIterates var from start to end."@),
        ("while"@, "**while** - While loop\n\n```skill\n(while test body...)\n```\n\nExecutes body while test is true."@),
        ("return"@, "**return** - Return from function\n\n```skill\n(return value)\n```\n\nReturns value from the current function."@),
        ("error"@, "**error** - Signal an error\n\n```skill\n(error message)\n```\n\nSignals an error with the given message."@),
        ("printf"@, "**printf** - Formatted output\n\n```skill\n(printf format ...)\n```\n\nPrints formatted output to stdout."@),
        ("sprintf"@, "**sprintf** - Formatted string output\n\n```skill\n(sprintf format ...)\n```\n\nReturns a formatted string."@),
        ("car"@, "**car** - First element of list\n\n```skill\n(car list)\n```\n\nReturns the first element of a list."@),
        ("cdr"@, "**cdr** - Rest of list\n\n```skill\n(cdr list)\n```\n\nReturns the list without its first element."@),
        ("cons"@, "**cons** - Construct list\n\n```skill\n(cons x list)\n```\n\nPrepends x to list and returns the new list."@),
        ("list"@, "**list** - Create list\n\n```skill\n(list ...)\n```\n\nCreates a list of the given arguments."@),
        ("append"@, "**append** - Append lists\n\n```skill\n(append list1 list2)\n```\n\nAppends list2 to list1."@),
        ("reverse"@, "**reverse** - Reverse list\n\n```skill\n(reverse list)\n```\n\nReturns the reversed list."@),
        ("length"@, "**length** - List length\n\n```skill\n(length list)\n```\n\nReturns the length of a list."@),
        ("nth"@, "**nth** - Nth element\n\n```skill\n(nth n list)\n```\n\nReturns the nth element of a list."@),
        ("member"@, "**member** - List membership\n\n```skill\n(member item list)\n```\n\nChecks if item is in list."@),
        ("assoc"@, "**assoc** - Association list lookup\n\n```skill\n(assoc key alist)\n```\n\nLooks up key in association list."@),
        ("sort"@, "**sort** - Sort list\n\n```skill\n(sort list predicate)\n```\n\nSorts list using the given predicate."@),
        ("mapcar"@, "**mapcar** - Map over list\n\n```skill\n(mapcar function list)\n```\n\nApplies function to each element of list."@),
        ("apply"@, "**apply** - Apply function\n\n```skill\n(apply function args)\n```\n\nApplies function to args."@),
        ("funcall"@, "**funcall** - Call function\n\n```skill\n(funcall function ...)\n```\n\nCalls function with arguments."@),
        ("eval"@, "**eval** - Evaluate expression\n\n```skill\n(eval expr)\n```\n\nEvaluates an expression."@),
        ("lambda"@, "**lambda** - Anonymous function\n\n```skill\n(lambda (args...) body...)\n```\n\nCreates an anonymous function."@),
        ("quote"@, "**quote** - Quote expression\n\n```skill\n(quote expr)\n```\n\nReturns expr without evaluating it."@),
        ("open"@, "**open** - Open file\n\n```skill\n(open filename mode)\n```\n\nOpens a file and returns a port."@),
        ("close"@, "**close** - Close port\n\n```skill\n(close port)\n```\n\nCloses a port."@),
        ("read"@, "**read** - Read expression\n\n```skill\n(read)\n```\n\nReads an expression from input."@),
        ("print"@, "**print** - Print expression\n\n```skill\n(print expr)\n```\n\nPrints an expression."@),
        ("type"@, "**type** - Get type\n\n```skill\n(type expr)\n```\n\nReturns the type of an expression."@),
        ("boundp"@, "**boundp** - Check if bound\n\n```skill\n(boundp symbol)\n```\n\nChecks if symbol is bound."@),
        ("null"@, "**null** - Check if null\n\n```skill\n(null expr)\n```\n\nChecks if expr is null."@),
        ("eq"@, "**eq** - Identity equality\n\n```skill\n(eq a b)\n```\n\nTests for identity equality."@),
        ("eql"@, "**eql** - Value equality\n\n```skill\n(eql a b)\n```\n\nTests for value equality."@),
        ("equal"@, "**equal** - Structural equality\n\n```skill\n(equal a b)\n```\n\nTests for structural equality."@),
        ("stringp"@, "**stringp** - String predicate\n\n```skill\n(stringp expr)\n```\n\nChecks if expr is a string."@),
        ("fixp"@, "**fixp** - Integer predicate\n\n```skill\n(fixp expr)\n```\n\nChecks if expr is an integer."@),
        ("floatp"@, "**floatp** - Float predicate\n\n```skill\n(floatp expr)\n```\n\nChecks if expr is a float."@),
        ("listp"@, "**listp** - List predicate\n\n```skill\n(listp expr)\n```\n\nChecks if expr is a list."@),
    ]
}

/// The documentation of the core SKILL forms.
pub fn skill_docs() -> (r: Vec<(&'static str, &'static str)>)
    ensures
        pairs_view(r@) == docs(),
{
    let v = vec![
        ("defun", "**defun** - Define a new function\n\n```skill\n(defun name (params...) body...)\n```\n\nCreates a new function with the given name, parameters, and body."),
        ("procedure", "**procedure** - Define a procedure (alias for defun)\n\n```skill\n(procedure name (params...) body...)\n```\n\nSame as defun, creates a new function."),
        ("let", "**let** - Create local variable bindings\n\n```skill\n(let ((var1 val1) (var2 val2)) body...)\n```\n\nCreates local variables with the given bindings."),
        ("letrec", "**letrec** - Create recursive local bindings\n\n```skill\n(letrec ((var1 val1) (var2 val2)) body...)\n```\n\nLike let, but bindings can reference each other."),
        ("letseq", "**letseq** - Create sequential local bindings\n\n```skill\n(letseq ((var1 val1) (var2 val2)) body...)\n```\n\nLike let, but bindings are evaluated sequentially."),
        ("setq", "**setq** - Set a variable's value\n\n```skill\n(setq var value)\n```\n\nSets the variable to the given value."),
        ("if", "**if** - Conditional expression\n\n```skill\n(if test then else)\n```\n\nEvaluates test, then evaluates then or else based on the result."),
        ("cond", "**cond** - Multi-branch conditional\n\n```skill\n(cond (test1 body1...) (test2 body2...) ...)\n```\n\nEvaluates each test in order and executes the body of the first true test."),
        ("case", "**case** - Case dispatch\n\n```skill\n(case key (value1 body1...) (value2 body2...) ...)\n```\n\nMatches key against values and executes the corresponding body."),
        ("when", "**when** - Conditional execution\n\n```skill\n(when test body...)\n```\n\nExecutes body only when test is true."),
        ("unless", "**unless** - Negative conditional execution\n\n```skill\n(unless test body...)\n```\n\nExecutes body only when test is false."),
        ("progn", "**progn** - Sequential execution\n\n```skill\n(progn body...)\n```\n\nExecutes forms sequentially and returns the last result."),
        ("prog", "**prog** - Program with local variables\n\n```skill\n(prog (vars...) body...)\n```\n\nExecutes body with local variables."),
        ("foreach", "**foreach** - Iterate over list\n\n```skill\n(foreach var list body...)\n```\n\nIterates over list, binding var to each element."),
        ("for", "**for** - Counting loop\n\n```skill\n(for var start end body...)\n```\n\nIterates var from start to end."),
        ("while", "**while** - While loop\n\n```skill\n(while test body...)\n```\n\nExecutes body while test is true."),
        ("return", "**return** - Return from function\n\n```skill\n(return value)\n```\n\nReturns value from the current function."),
        ("error", "**error** - Signal an error\n\n```skill\n(error message)\n```\n\nSignals an error with the given message."),
        ("printf", "**printf** - Formatted output\n\n```skill\n(printf format ...)\n```\n\nPrints formatted output to stdout."),
        ("sprintf", "**sprintf** - Formatted string output\n\n```skill\n(sprintf format ...)\n```\n\nReturns a formatted string."),
        ("car", "**car** - First element of list\n\n```skill\n(car list)\n```\n\nReturns the first element of a list."),
        ("cdr", "**cdr** - Rest of list\n\n```skill\n(cdr list)\n```\n\nReturns the list without its first element."),
        ("cons", "**cons** - Construct list\n\n```skill\n(cons x list)\n```\n\nPrepends x to list and returns the new list."),
        ("list", "**list** - Create list\n\n```skill\n(list ...)\n```\n\nCreates a list of the given arguments."),
        ("append", "**append** - Append lists\n\n```skill\n(append list1 list2)\n```\n\nAppends list2 to list1."),
        ("reverse", "**reverse** - Reverse list\n\n```skill\n(reverse list)\n```\n\nReturns the reversed list."),
        ("length", "**length** - List length\n\n```skill\n(length list)\n```\n\nReturns the length of a list."),
        ("nth", "**nth** - Nth element\n\n```skill\n(nth n list)\n```\n\nReturns the nth element of a list."),
        ("member", "**member** - List membership\n\n```skill\n(member item list)\n```\n\nChecks if item is in list."),
        ("assoc", "**assoc** - Association list lookup\n\n```skill\n(assoc key alist)\n```\n\nLooks up key in association list."),
        ("sort", "**sort** - Sort list\n\n```skill\n(sort list predicate)\n```\n\nSorts list using the given predicate."),
        ("mapcar", "**mapcar** - Map over list\n\n```skill\n(mapcar function list)\n```\n\nApplies function to each element of list."),
        ("apply", "**apply** - Apply function\n\n```skill\n(apply function args)\n```\n\nApplies function to args."),
        ("funcall", "**funcall** - Call function\n\n```skill\n(funcall function ...)\n```\n\nCalls function with arguments."),
        ("eval", "**eval** - Evaluate expression\n\n```skill\n(eval expr)\n```\n\nEvaluates an expression."),
        ("lambda", "**lambda** - Anonymous function\n\n```skill\n(lambda (args...) body...)\n```\n\nCreates an anonymous function."),
        ("quote", "**quote** - Quote expression\n\n```skill\n(quote expr)\n```\n\nReturns expr without evaluating it."),
        ("open", "**open** - Open file\n\n```skill\n(open filename mode)\n```\n\nOpens a file and returns a port."),
        ("close", "**close** - Close port\n\n```skill\n(close port)\n```\n\nCloses a port."),
        ("read", "**read** - Read expression\n\n```skill\n(read)\n```\n\nReads an expression from input."),
        ("print", "**print** - Print expression\n\n```skill\n(print expr)\n```\n\nPrints an expression."),
        ("type", "**type** - Get type\n\n```skill\n(type expr)\n```\n\nReturns the type of an expression."),
        ("boundp", "**boundp** - Check if bound\n\n```skill\n(boundp symbol)\n```\n\nChecks if symbol is bound."),
        ("null", "**null** - Check if null\n\n```skill\n(null expr)\n```\n\nChecks if expr is null."),
        ("eq", "**eq** - Identity equality\n\n```skill\n(eq a b)\n```\n\nTests for identity equality."),
        ("eql", "**eql** - Value equality\n\n```skill\n(eql a b)\n```\n\nTests for value equality."),
        ("equal", "**equal** - Structural equality\n\n```skill\n(equal a b)\n```\n\nTests for structural equality."),
        ("stringp", "**stringp** - String predicate\n\n```skill\n(stringp expr)\n```\n\nChecks if expr is a string."),
        ("fixp", "**fixp** - Integer predicate\n\n```skill\n(fixp expr)\n```\n\nChecks if expr is an integer."),
        ("floatp", "**floatp** - Float predicate\n\n```skill\n(floatp expr)\n```\n\nChecks if expr is a float."),
        ("listp", "**listp** - List predicate\n\n```skill\n(listp expr)\n```\n\nChecks if expr is a list."),
    ];
    assert(pairs_view(v@) =~= docs());
    v
}

} // verus!
