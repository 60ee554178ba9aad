//! Text of a new Unify file, made from the command line that asked for it.
use vstd::prelude::*;

verus! {

/// One argument line of a new file: the argument as a literal, then a comma.
pub open spec fn arg_line(a: Seq<char>) -> Seq<char> {
    "  \""@ + a + "\",\n"@
}

/// The argument lines of a new file, one per argument, in order.
pub open spec fn arg_lines(args: Seq<Seq<char>>) -> Seq<char>
    decreases args.len(),
{
    if args.len() == 0 {
        Seq::empty()
    } else {
        arg_line(args[0]) + arg_lines(args.drop_first())
    }
}

/// A new Unify file: a comment, a compiler section and an argument section.
pub open spec fn unify_file_text(compiler: Seq<char>, args: Seq<Seq<char>>) -> Seq<char> {
    "# Build script\n\nCOMP: \""@ + compiler + "\"\n\nARGS:\n"@ + arg_lines(args)
}

proof fn lemma_arg_lines_push(args: Seq<Seq<char>>, a: Seq<char>)
    ensures
        arg_lines(args.push(a)) == arg_lines(args) + arg_line(a),
    decreases args.len(),
{
    if args.len() == 0 {
        assert(args.push(a).drop_first() =~= Seq::<Seq<char>>::empty());
        assert(arg_lines(args.push(a).drop_first()) == Seq::<char>::empty());
        assert(args.push(a)[0] == a);
        assert(arg_lines(args.push(a)) =~= arg_line(a));
        assert(arg_lines(args) + arg_line(a) =~= arg_line(a));
    } else {
        assert(args.push(a).drop_first() =~= args.drop_first().push(a));
        lemma_arg_lines_push(args.drop_first(), a);
        assert(arg_lines(args.push(a)) =~= arg_lines(args) + arg_line(a));
    }
}

/// The content of a new Unify file for a command line `args`, whose third
/// entry is the compiler and whose later entries are its arguments.
pub fn create_unify_file_content(args: &Vec<String>) -> (r: String)
    requires
        args@.len() >= 3,
    ensures
        r@ == unify_file_text(args@[2]@, args@.skip(3).map_values(|x: String| x@)),
{
    let ghost tail = args@.skip(3).map_values(|x: String| x@);
    let mut file_content = String::from_str("# Build script\n\nCOMP: \"");
    file_content.append(args[2].as_str());
    file_content.append("\"\n\nARGS:\n");
    let ghost head = file_content@;
    let mut i: usize = 3;
    assert(tail.take(0) =~= Seq::<Seq<char>>::empty());
    while i < args.len()
        invariant
            3 <= i <= args@.len(),
            tail == args@.skip(3).map_values(|x: String| x@),
            head == "# Build script\n\nCOMP: \""@ + args@[2]@ + "\"\n\nARGS:\n"@,
            file_content@ == head + arg_lines(tail.take(i - 3)),
        decreases args@.len() - i,
    {
        file_content.append("  \"");
        file_content.append(args[i].as_str());
        file_content.append("\",\n");
        proof {
            assert(tail.take(i - 2) =~= tail.take(i - 3).push(args@[i as int]@));
            lemma_arg_lines_push(tail.take(i - 3), args@[i as int]@);
            assert(file_content@ =~= head + arg_lines(tail.take(i - 2)));
        }
        i = i + 1;
    }
    assert(tail.take(i - 3) =~= tail);
    file_content
}

} // verus!
