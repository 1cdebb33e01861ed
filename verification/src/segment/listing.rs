//! Blocks as text.

use crate::context::Context;
use crate::ids::{BlockId, BlockParamId, EdgeId, FunctionId, InstructionId, LocalInsnId};
use crate::insn::mnemonic::Mnemonic;
use crate::segment::atoms::{both, three};
use crate::segment::join;
use crate::segment::line::{
    block_text, comment_text, labels_text, lemma_line_end, line_end, param_decl, params_text,
    statements_text, successor_labels, successors_text, text_rank, texts_in_order, without_return,
};
use crate::segment::write::statement;
use crate::sort::{rank_in, sort, sorted};
use vstd::prelude::*;
use vstd::string::*;

verus! {

// Where a whole list can be rendered, each beginning of it can.

proof fn lemma_statements_ok(
    c: Context,
    o: Option<FunctionId>,
    func: FunctionId,
    insns: Seq<LocalInsnId>,
    i: nat,
    n: nat,
    depth: nat,
)
    requires
        i <= n,
        statements_text(c, o, func, insns, n, depth).ok,
    ensures
        statements_text(c, o, func, insns, i, depth).ok,
    decreases n - i,
{
    if i < n {
        lemma_statements_ok(c, o, func, insns, i, (n - 1) as nat, depth);
    }
}

proof fn lemma_params_ok(c: Context, block: BlockId, i: nat, n: nat)
    requires
        i <= n,
        params_text(c, block, n).ok,
    ensures
        params_text(c, block, i).ok,
    decreases n - i,
{
    if i < n {
        lemma_params_ok(c, block, i, (n - 1) as nat);
    }
}

/// The texts of strings.
pub open spec fn texts(strings: Seq<String>) -> Seq<Seq<char>> {
    strings.map_values(|s: String| s@)
}

/// Strings come into the order that their texts come into.
proof fn lemma_sorted_texts(strings: Seq<String>, n: int)
    requires
        0 <= n <= strings.len(),
    ensures
        texts(sorted(strings, n)) == texts_in_order(texts(strings), n),
    decreases n,
{
    if n == 0 {
        assert(texts(sorted(strings, n)) =~= texts_in_order(texts(strings), n));
    } else {
        lemma_sorted_texts(strings, n - 1);
        let s = sorted(strings, n - 1);
        let item = strings[n - 1];
        lemma_rank_texts(s, item);
        assert(texts(strings)[n - 1] == item@);
        crate::sort::lemma_rank(s, item);
        assert(texts(s.insert(rank_in(s, item), item)) =~= texts(s).insert(
            rank_in(s, item),
            item@,
        ));
    }
}

proof fn lemma_rank_texts(s: Seq<String>, item: String)
    ensures
        rank_in(s, item) == text_rank(texts(s), item@),
    decreases s.len(),
{
    if s.len() > 0 {
        assert(texts(s)[0] == s[0]@);
        assert(texts(s).skip(1) =~= texts(s.skip(1)));
        lemma_rank_texts(s.skip(1), item);
    }
}

impl Context {
    /// A parameter of a block where it is declared.
    fn param_declared(&self, id: BlockParamId) -> (text: String)
        requires
            self.wf(),
            param_decl(*self, id).ok,
        ensures
            text@ == param_decl(*self, id).chars,
    {
        let param = self.bodies[id.func.0 as usize].params.get(id.local.0);
        let types = &self.shared.types;
        let scalar = types.pointee_of(param.type_id).is_none() && types.struct_name_of(
            param.type_id,
        ).is_none();
        if param.name.is_some() && scalar && types.size_of(param.type_id) > 0 {
            let atom = self.param_atom(id);
            let label = types.display_name(param.type_id);
            three(atom.as_str(), ":", label.as_str())
        } else {
            self.param_use(id)
        }
    }

    /// The parameters of a block where they are declared.
    fn params_declared(&self, id: BlockId) -> (text: String)
        requires
            self.wf(),
            self.has_block(id),
            params_text(
                *self,
                id,
                self.body_of(id.func).block_rec(id.local).params@.len(),
            ).ok,
        ensures
            text@ == params_text(
                *self,
                id,
                self.body_of(id.func).block_rec(id.local).params@.len(),
            ).chars,
    {
        let params = &self.bodies[id.func.0 as usize].blocks.get(id.local.0).params;
        let mut text = String::new();
        let mut i: usize = 0;
        while i < params.len()
            invariant
                self.wf(),
                params@ == self.body_of(id.func).block_rec(id.local).params@,
                i <= params.len(),
                params_text(*self, id, params@.len()).ok,
                text@ == params_text(*self, id, i as nat).chars,
            decreases params.len() - i,
        {
            proof {
                lemma_params_ok(*self, id, (i + 1) as nat, params@.len());
            }
            let decl = self.param_declared(BlockParamId::new(id.func, params[i]));
            text.append(" ");
            text.append(decl.as_str());
            i = i + 1;
        }
        text
    }

    /// The names of the blocks that a block leads to.
    fn successor_names(&self, id: BlockId) -> (names: Vec<String>)
        requires
            self.wf(),
            self.has_block(id),
        ensures
            texts(names@) == successor_labels(*self, id),
    {
        proof {
            assert(self.body_ok(id.func.0 as int));
        }
        let body = &self.bodies[id.func.0 as usize];
        let edges = body.outgoing_edges(id.local);
        let mut names: Vec<String> = Vec::new();
        let mut i: usize = 0;
        while i < edges.len()
            invariant
                self.wf(),
                self.has_block(id),
                body == self.body_of(id.func),
                body.wf(),
                edges@ == body.block_rec(id.local).edges@.filter(
                    |e: EdgeId| body.edge_rec(e).from == id.local,
                ),
                forall|e: EdgeId| #[trigger] edges@.contains(e) ==> body.has_edge(e),
                i <= edges.len(),
                names.len() == i,
                forall|k: int|
                    0 <= k < i ==> (#[trigger] names@[k])@ == self.block_label(
                        BlockId { func: id.func, local: body.edge_rec(edges@[k]).to },
                    ),
            decreases edges.len() - i,
        {
            proof {
                assert(edges@.contains(edges@[i as int]));
                assert(body.edge_ok(edges@[i as int]));
            }
            let to = body.edges.get(edges[i].0).to;
            names.push(self.block_atom(BlockId::new(id.func, to)));
            i = i + 1;
        }
        proof {
            assert(texts(names@) =~= successor_labels(*self, id));
        }
        names
    }

    /// Where control goes after a block whose terminator does not say.
    fn successors_listed(&self, id: BlockId) -> (text: String)
        requires
            self.wf(),
            self.has_block(id),
        ensures
            text@ == successors_text(*self, id),
    {
        proof {
            assert(self.body_ok(id.func.0 as int));
        }
        let body = &self.bodies[id.func.0 as usize];
        proof {
            assert(body.list_ok(id.local));
        }
        let insns = body.insn_vec(id.local);
        let n: usize = insns.len();
        if n == 0 {
            return String::new();
        }
        let last = insns[n - 1];
        proof {
            assert(insns@.last() == last);
            assert(body.linked_at(id.local, n - 1));
        }
        match &body.insns.get(last.0).mnemonic {
            Mnemonic::Call(_) | Mnemonic::CallInd(_) | Mnemonic::BranchInd(_) => {},
            _ => {
                return String::new();
            },
        }
        let names = self.successor_names(id);
        if names.len() == 0 {
            return String::new();
        }
        let ghost labels = texts(names@);
        let ghost given = names@;
        let names = sort(names);
        proof {
            lemma_sorted_texts(given, given.len() as int);
        }
        let ghost listed = texts_in_order(labels, labels.len() as int);
        let mut list = String::new();
        let mut i: usize = 0;
        while i < names.len()
            invariant
                i <= names.len(),
                listed == texts(names@),
                list@ == labels_text(listed, i as nat),
            decreases names.len() - i,
        {
            proof {
                reveal_strlit("");
                assert(listed[i as int] == names@[i as int]@);
                assert(list@ + ""@ =~= list@);
            }
            if i > 0 {
                list.append(",");
            }
            list.append(" <");
            list.append(names[i].as_str());
            list.append(">");
            i = i + 1;
        }
        three("\t// ->", list.as_str(), "\n")
    }
}

/// A comment, each of its lines after a tab and two slashes.
fn comment_listed(comment: &str) -> (text: String)
    ensures
        text@ == comment_text(comment@),
{
    let n: usize = comment.unicode_len();
    let mut text = String::new();
    let mut start: usize = 0;
    proof {
        assert(comment@.skip(0) =~= comment@);
        assert(Seq::<char>::empty() + comment_text(comment@) =~= comment_text(comment@));
    }
    while start < n
        invariant
            n == comment@.len(),
            start <= n,
            text@ + comment_text(comment@.skip(start as int)) == comment_text(comment@),
        decreases n - start,
    {
        let ghost rest = comment@.skip(start as int);
        let mut end: usize = start;
        proof {
            lemma_line_end(rest);
            assert(comment@.skip(end as int) =~= rest);
        }
        while end < n && comment.get_char(end) != '\n'
            invariant
                n == comment@.len(),
                start <= end <= n,
                rest == comment@.skip(start as int),
                line_end(rest) == (end - start) + line_end(comment@.skip(end as int)),
            decreases n - end,
        {
            proof {
                assert(comment@.skip(end as int)[0] == comment@[end as int]);
                assert(comment@.skip(end as int).skip(1) =~= comment@.skip(end + 1));
            }
            end = end + 1;
        }
        proof {
            if end < n {
                assert(comment@.skip(end as int)[0] == comment@[end as int]);
            }
            assert(line_end(rest) == end - start);
        }
        let ghost before = text@;
        text.append("\t// ");
        if end == n {
            let line = comment.substring_char(start, n);
            text.append(line);
            text.append("\n");
            proof {
                assert(line@ =~= rest);
                assert(comment@.skip(n as int) =~= Seq::<char>::empty());
                assert(text@ =~= before + comment_text(rest));
                assert(text@ + comment_text(comment@.skip(n as int)) =~= text@);
            }
            start = n;
        } else {
            let stop: usize = if end > start && comment.get_char(end - 1) == '\r' {
                end - 1
            } else {
                end
            };
            let line = comment.substring_char(start, stop);
            text.append(line);
            text.append("\n");
            proof {
                let whole = rest.take(end - start);
                if end > start {
                    assert(whole.last() == comment@[end - 1]);
                }
                assert(line@ =~= without_return(whole));
                assert(rest.skip(end - start + 1) =~= comment@.skip(end + 1));
                assert(text@ + comment_text(comment@.skip(end + 1)) =~= before + comment_text(
                    rest,
                ));
            }
            start = end + 1;
        }
    }
    proof {
        assert(comment@.skip(start as int) =~= Seq::<char>::empty());
        assert(text@ + comment_text(comment@.skip(start as int)) =~= text@);
    }
    text
}

/// The instructions of a block, each on a line of its own.
fn statements_listed(
    ctx: &Context,
    owner: Option<FunctionId>,
    id: BlockId,
    Ghost(depth): Ghost<nat>,
) -> (text: String)
    requires
        ctx.wf(),
        ctx.has_block(id),
        statements_text(
            *ctx,
            owner,
            id.func,
            ctx.body_of(id.func).order(id.local),
            ctx.body_of(id.func).order(id.local).len(),
            depth,
        ).ok,
    ensures
        text@ == statements_text(
            *ctx,
            owner,
            id.func,
            ctx.body_of(id.func).order(id.local),
            ctx.body_of(id.func).order(id.local).len(),
            depth,
        ).chars,
    decreases depth, 7int,
{
    proof {
        assert(ctx.body_ok(id.func.0 as int));
    }
    let insns = ctx.bodies[id.func.0 as usize].insn_vec(id.local);
    let mut text = String::new();
    let mut i: usize = 0;
    while i < insns.len()
        invariant
            ctx.wf(),
            i <= insns.len(),
            statements_text(*ctx, owner, id.func, insns@, insns@.len(), depth).ok,
            text@ == statements_text(*ctx, owner, id.func, insns@, i as nat, depth).chars,
        decreases insns.len() - i,
    {
        proof {
            lemma_statements_ok(
                *ctx,
                owner,
                id.func,
                insns@,
                (i + 1) as nat,
                insns@.len(),
                depth,
            );
        }
        let seg = statement(ctx, owner, InstructionId::new(id.func, insns[i]), Ghost(depth));
        let line = join(&seg.out);
        text.append("\t");
        text.append(line.as_str());
        text.append("\n");
        i = i + 1;
    }
    text
}

/// A block.
pub(crate) fn block_listing(
    ctx: &Context,
    owner: Option<FunctionId>,
    id: BlockId,
    Ghost(depth): Ghost<nat>,
) -> (text: String)
    requires
        ctx.wf(),
        block_text(*ctx, owner, id, depth).ok,
    ensures
        text@ == block_text(*ctx, owner, id, depth).chars,
    decreases depth, 8int,
{
    let label = ctx.block_atom(id);
    let mut text = both("<", label.as_str());
    let params = ctx.params_declared(id);
    text.append(params.as_str());
    text.append(">\n");
    let comment = match &ctx.bodies[id.func.0 as usize].blocks.get(id.local.0).comment {
        Some(comment) => comment_listed(comment.as_str()),
        None => String::new(),
    };
    text.append(comment.as_str());
    let statements = statements_listed(ctx, owner, id, Ghost(depth));
    text.append(statements.as_str());
    let successors = ctx.successors_listed(id);
    text.append(successors.as_str());
    text
}

} // verus!
