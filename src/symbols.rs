use vstd::prelude::*;

verus! {

/// One named value: a label or a define.
#[derive(Debug, Clone)]
pub struct Symbol {
    pub name: String,
    pub public: bool,
    pub value: i32,
}

/// The meaning of a list of symbols: a name stands for its latest entry.
pub open spec fn symbols_map(s: Seq<Symbol>) -> Map<Seq<char>, (bool, i32)>
    decreases s.len(),
{
    if s.len() == 0 {
        Map::empty()
    } else {
        let last = s.last();
        symbols_map(s.drop_last()).insert(last.name@, (last.public, last.value))
    }
}

/// Of a list of pairs, a name stands for its latest value.
pub open spec fn pairs_map(s: Seq<(String, i32)>) -> Map<Seq<char>, i32>
    decreases s.len(),
{
    if s.len() == 0 {
        Map::empty()
    } else {
        pairs_map(s.drop_last()).insert(s.last().0@, s.last().1)
    }
}

/// A table of symbols of one scope; a later definition of a name replaces an earlier one.
#[derive(Debug, Clone)]
pub struct SymbolTable {
    pub entries: Vec<Symbol>,
}

impl View for SymbolTable {
    type V = Map<Seq<char>, (bool, i32)>;

    open spec fn view(&self) -> Map<Seq<char>, (bool, i32)> {
        symbols_map(self.entries@)
    }
}

/// What a name resolves to: the program's own symbols first, then the file's.
pub open spec fn resolve_in(
    program: Map<Seq<char>, (bool, i32)>,
    file: Map<Seq<char>, (bool, i32)>,
    name: Seq<char>,
) -> Option<i32> {
    if program.contains_key(name) {
        Some(program[name].1)
    } else if file.contains_key(name) {
        Some(file[name].1)
    } else {
        None
    }
}

/// How names resolve in a program with symbols `program` inside a file with symbols `file`.
pub open spec fn scope_fn(
    program: Map<Seq<char>, (bool, i32)>,
    file: Map<Seq<char>, (bool, i32)>,
) -> spec_fn(Seq<char>) -> Option<i32> {
    |n: Seq<char>| resolve_in(program, file, n)
}

/// The file's names are visible in each of its programs, and a program's own
/// definition of a name hides the file's inside that program only.
pub proof fn lemma_file_scope_visible(
    program: Map<Seq<char>, (bool, i32)>,
    file: Map<Seq<char>, (bool, i32)>,
    n: Seq<char>,
)
    ensures
        file.contains_key(n) && !program.contains_key(n) ==> resolve_in(program, file, n) == Some(
            file[n].1,
        ),
        program.contains_key(n) ==> resolve_in(program, file, n) == Some(program[n].1),
        !file.contains_key(n) && !program.contains_key(n) ==> resolve_in(program, file, n) is None,
{
}

/// The value a name exports, if any: a public program symbol wins over a public file symbol.
pub open spec fn public_value(
    program: Map<Seq<char>, (bool, i32)>,
    file: Map<Seq<char>, (bool, i32)>,
    name: Seq<char>,
) -> Option<i32> {
    if program.contains_key(name) && program[name].0 {
        Some(program[name].1)
    } else if file.contains_key(name) && file[name].0 {
        Some(file[name].1)
    } else {
        None
    }
}

proof fn lemma_symbols_push(s: Seq<Symbol>, x: Symbol)
    ensures
        symbols_map(s.push(x)) == symbols_map(s).insert(x.name@, (x.public, x.value)),
{
    assert(s.push(x).drop_last() =~= s);
}

proof fn lemma_pairs_push(s: Seq<(String, i32)>, x: (String, i32))
    ensures
        pairs_map(s.push(x)) == pairs_map(s).insert(x.0@, x.1),
{
    assert(s.push(x).drop_last() =~= s);
}

/// Where no entry at or after `i` bears the name, the prefix before `i` decides it.
proof fn lemma_symbols_suffix(s: Seq<Symbol>, i: int, name: Seq<char>)
    requires
        0 <= i <= s.len(),
        forall|j: int| i <= j < s.len() ==> s[j].name@ != name,
    ensures
        symbols_map(s).contains_key(name) == symbols_map(s.subrange(0, i)).contains_key(name),
        symbols_map(s)[name] == symbols_map(s.subrange(0, i))[name],
    decreases s.len() - i,
{
    if i < s.len() {
        lemma_symbols_suffix(s.drop_last(), i, name);
        assert(s.drop_last().subrange(0, i) =~= s.subrange(0, i));
    } else {
        assert(s.subrange(0, i) =~= s);
    }
}

impl SymbolTable {
    /// An empty table.
    pub fn new() -> (r: SymbolTable)
        ensures
            r@ == Map::<Seq<char>, (bool, i32)>::empty(),
    {
        SymbolTable { entries: Vec::new() }
    }

    /// Gives `name` the value `value`, replacing what it stood for before.
    pub fn define(&mut self, name: String, public: bool, value: i32)
        ensures
            final(self)@ == old(self)@.insert(name@, (public, value)),
    {
        proof {
            lemma_symbols_push(self.entries@, Symbol { name, public, value });
        }
        self.entries.push(Symbol { name, public, value });
    }

    /// The entry that `name` stands for, if any.
    pub fn get(&self, name: &String) -> (r: Option<(bool, i32)>)
        ensures
            r == (if self@.contains_key(name@) {
                Some(self@[name@])
            } else {
                None
            }),
    {
        let mut i: usize = self.entries.len();
        while i > 0
            invariant
                i <= self.entries@.len(),
                forall|j: int| i <= j < self.entries@.len() ==> self.entries@[j].name@ != name@,
            decreases i,
        {
            let e = &self.entries[i - 1];
            if e.name == *name {
                proof {
                    lemma_symbols_suffix(self.entries@, i as int, name@);
                    let pre = self.entries@.subrange(0, i as int);
                    assert(pre.drop_last() =~= self.entries@.subrange(0, i - 1));
                }
                return Some((e.public, e.value));
            }
            i = i - 1;
        }
        proof {
            lemma_symbols_suffix(self.entries@, 0, name@);
            assert(self.entries@.subrange(0, 0) =~= Seq::<Symbol>::empty());
        }
        None
    }
}

/// The symbols that one program sees: its own, over those of its file.
#[derive(Debug)]
pub struct ProgramState<'a> {
    pub file: &'a SymbolTable,
    pub defines: SymbolTable,
}

impl<'a> ProgramState<'a> {
    /// A program with no symbols of its own yet, inside the given file scope.
    pub fn new(file: &'a SymbolTable) -> (r: ProgramState<'a>)
        ensures
            r.file == file,
            r.defines@ == Map::<Seq<char>, (bool, i32)>::empty(),
    {
        ProgramState { file, defines: SymbolTable::new() }
    }

    /// The value of `name`: the program's own symbol if it has one, else the file's.
    pub fn resolve(&self, name: &String) -> (r: Option<i32>)
        ensures
            r == resolve_in(self.defines@, self.file@, name@),
    {
        match self.defines.get(name) {
            Some(e) => Some(e.1),
            None => match self.file.get(name) {
                Some(e) => Some(e.1),
                None => None,
            },
        }
    }

    /// The exported value of `name`, if any.
    fn public_value_of(&self, name: &String) -> (r: Option<i32>)
        ensures
            r == public_value(self.defines@, self.file@, name@),
    {
        match self.defines.get(name) {
            Some((true, v)) => Some(v),
            _ => match self.file.get(name) {
                Some((true, v)) => Some(v),
                _ => None,
            },
        }
    }

    /// Adds the exported value of `name` to `out`, if it has one.
    fn export(&self, name: &String, out: &mut Vec<(String, i32)>)
        requires
            exports_agree(self.defines@, self.file@, old(out)@),
        ensures
            exports_agree(self.defines@, self.file@, final(out)@),
            forall|n: Seq<char>|
                pairs_map(old(out)@).contains_key(n) ==> #[trigger] pairs_map(final(out)@).contains_key(n),
            public_value(self.defines@, self.file@, name@) is Some ==> pairs_map(final(out)@).contains_key(name@),
    {
        if let Some(v) = self.public_value_of(name) {
            let entry = (name.clone(), v);
            proof {
                lemma_pairs_push(out@, entry);
            }
            out.push(entry);
        }
    }

    /// The public symbols of both scopes with their values, the program's winning.
    pub fn public_defines(&self) -> (r: Vec<(String, i32)>)
        ensures
            forall|n: Seq<char>|
                #![trigger public_value(self.defines@, self.file@, n)]
                (pairs_map(r@).contains_key(n) <==> public_value(self.defines@, self.file@, n) is Some)
                && (pairs_map(r@).contains_key(n) ==> public_value(self.defines@, self.file@, n)
                    == Some(pairs_map(r@)[n])),
    {
        let mut out: Vec<(String, i32)> = Vec::new();
        let fe = &self.file.entries;
        let pe = &self.defines.entries;
        let mut i: usize = 0;
        while i < fe.len()
            invariant
                fe == &self.file.entries,
                i <= fe@.len(),
                exports_agree(self.defines@, self.file@, out@),
                forall|j: int|
                    0 <= j < i && public_value(self.defines@, self.file@, #[trigger] fe@[j].name@) is Some
                        ==> pairs_map(out@).contains_key(fe@[j].name@),
            decreases fe@.len() - i,
        {
            self.export(&fe[i].name, &mut out);
            i = i + 1;
        }
        let mut k: usize = 0;
        while k < pe.len()
            invariant
                fe == &self.file.entries,
                pe == &self.defines.entries,
                k <= pe@.len(),
                exports_agree(self.defines@, self.file@, out@),
                forall|j: int|
                    0 <= j < fe@.len() && public_value(self.defines@, self.file@, #[trigger] fe@[j].name@) is Some
                        ==> pairs_map(out@).contains_key(fe@[j].name@),
                forall|j: int|
                    0 <= j < k && public_value(self.defines@, self.file@, #[trigger] pe@[j].name@) is Some
                        ==> pairs_map(out@).contains_key(pe@[j].name@),
            decreases pe@.len() - k,
        {
            self.export(&pe[k].name, &mut out);
            k = k + 1;
        }
        proof {
            assert forall|n: Seq<char>|
                #[trigger] public_value(self.defines@, self.file@, n) is Some implies pairs_map(out@).contains_key(n) by {
                if self.defines@.contains_key(n) && self.defines@[n].0 {
                    lemma_in_map_has_entry(pe@, n);
                } else {
                    lemma_in_map_has_entry(fe@, n);
                }
            }
        }
        out
    }
}

/// Every name in `out` carries the value that the two scopes export for it.
pub open spec fn exports_agree(
    program: Map<Seq<char>, (bool, i32)>,
    file: Map<Seq<char>, (bool, i32)>,
    out: Seq<(String, i32)>,
) -> bool {
    forall|n: Seq<char>|
        #[trigger] pairs_map(out).contains_key(n) ==> public_value(program, file, n) == Some(pairs_map(out)[n])
}

proof fn lemma_in_map_has_entry(s: Seq<Symbol>, n: Seq<char>)
    requires
        symbols_map(s).contains_key(n),
    ensures
        exists|j: int| 0 <= j < s.len() && s[j].name@ == n,
    decreases s.len(),
{
    if s.last().name@ != n {
        lemma_in_map_has_entry(s.drop_last(), n);
        let j = choose|j: int| 0 <= j < s.drop_last().len() && s.drop_last()[j].name@ == n;
        assert(s[j].name@ == n);
    } else {
        assert(s[s.len() - 1].name@ == n);
    }
}

} // verus!
