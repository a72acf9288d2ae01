//! Requests for self profiles.
use crate::arithmetic::Arithmetic;
use crate::number;
use crate::server::self_profile;
use crate::server::self_profile::{Benchmark, SelfProfile};
use crate::text;
use vstd::prelude::*;
use vstd::string::*;

verus! {

/// A request for the profile of one run, beside that of another commit if `base_commit` says so.
pub struct Request {
    pub commit: String,
    pub base_commit: Option<String>,
    /// The benchmark's name and its type, with a dash between them.
    pub benchmark: String,
    pub run_name: String,
    /// The column to sort by.
    pub sort_idx: String,
}

/// The answer to a request.
pub struct Response<V> {
    pub base_profile: Option<SelfProfile<V>>,
    pub profile: SelfProfile<V>,
}

/// What a request asks for.
pub struct Query {
    pub bench_ty: String,
    pub bench_name: String,
    pub sort_idx: i32,
}

/// The place of the last dash of `s`.
pub open spec fn last_dash(s: Seq<char>) -> Option<int>
    decreases s.len(),
{
    if s.len() == 0 {
        None
    } else if s.last() == '-' {
        Some(s.len() - 1)
    } else {
        last_dash(s.drop_last())
    }
}

/// What `body` asks for, or the message that says why it asks for nothing: the part of its
/// benchmark behind the last dash, the part in front of it, and the column to sort by.
pub open spec fn query_of(body: Request) -> Result<(Seq<char>, Seq<char>, i32), Seq<char>> {
    match last_dash(body.benchmark@) {
        None => Err("no benchmark name"@),
        Some(dash) => match number::i32_value(body.sort_idx@) {
            None => Err("sort_idx needs to be i32"@),
            Some(sort_idx) => Ok(
                (
                    body.benchmark@.subrange(dash + 1, body.benchmark@.len() as int),
                    body.benchmark@.subrange(0, dash),
                    sort_idx as i32,
                ),
            ),
        },
    }
}

/// What a request asks for is put together again by a dash, and the type holds no other.
pub proof fn lemma_benchmark_is_split(body: Request)
    requires
        query_of(body) is Ok,
    ensures
        body.benchmark@ == query_of(body)->Ok_0.1 + seq!['-'] + query_of(body)->Ok_0.0,
        !query_of(body)->Ok_0.0.contains('-'),
{
    let s = body.benchmark@;
    lemma_last_dash(s);
}

/// A request is read if and only if its benchmark holds a dash and its column is a number, and
/// otherwise the first of the two that is missing is named. What stands behind the last dash is the
/// type, and what stands in front of it the name.
pub proof fn lemma_what_is_asked_for(body: Request)
    ensures
        !body.benchmark@.contains('-') ==> query_of(body) == Err::<
            (Seq<char>, Seq<char>, i32),
            Seq<char>,
        >("no benchmark name"@),
        body.benchmark@.contains('-') && number::i32_value(body.sort_idx@) is None ==> query_of(
            body,
        ) == Err::<(Seq<char>, Seq<char>, i32), Seq<char>>("sort_idx needs to be i32"@),
        forall|bench_name: Seq<char>, bench_ty: Seq<char>|
            body.benchmark@ == #[trigger] (bench_name.push('-') + bench_ty) && !bench_ty.contains(
                '-',
            ) && number::i32_value(body.sort_idx@) is Some ==> query_of(body) == Ok::<
                (Seq<char>, Seq<char>, i32),
                Seq<char>,
            >((bench_ty, bench_name, number::i32_value(body.sort_idx@)->0 as i32)),
{
    let s = body.benchmark@;
    lemma_last_dash(s);
    lemma_dash_is_found(s);
    assert forall|bench_name: Seq<char>, bench_ty: Seq<char>|
        s == #[trigger] (bench_name.push('-') + bench_ty) && !bench_ty.contains('-')
            && number::i32_value(body.sort_idx@) is Some implies query_of(body) == Ok::<
        (Seq<char>, Seq<char>, i32),
        Seq<char>,
    >((bench_ty, bench_name, number::i32_value(body.sort_idx@)->0 as i32)) by {
        let n = bench_name.len() as int;
        assert(s[n] == '-');
        assert(s.contains('-'));
        let dash = last_dash(s)->0;
        if dash > n {
            assert(bench_ty[dash - n - 1] == '-');
        }
        assert(s.subrange(n + 1, s.len() as int) =~= bench_ty);
        assert(s.subrange(0, n) =~= bench_name);
    }
}

proof fn lemma_dash_is_found(s: Seq<char>)
    ensures
        last_dash(s) is Some <==> s.contains('-'),
    decreases s.len(),
{
    if s.len() > 0 {
        let rest = s.drop_last();
        lemma_dash_is_found(rest);
        if s.last() == '-' {
            assert(s[s.len() - 1] == '-');
        } else {
            if s.contains('-') {
                let i = choose|i: int| 0 <= i < s.len() && s[i] == '-';
                assert(rest[i] == '-');
            }
            if rest.contains('-') {
                let i = choose|i: int| 0 <= i < rest.len() && rest[i] == '-';
                assert(s[i] == '-');
            }
        }
    }
}

proof fn lemma_last_dash(s: Seq<char>)
    ensures
        last_dash(s) matches Some(dash) ==> 0 <= dash < s.len() && s[dash] == '-' && forall|i: int|
            dash < i < s.len() ==> s[i] != '-',
    decreases s.len(),
{
    if s.len() > 0 && s.last() != '-' {
        lemma_last_dash(s.drop_last());
        if let Some(dash) = last_dash(s) {
            assert forall|i: int| dash < i < s.len() implies s[i] != '-' by {
                if i < s.len() - 1 {
                    assert(s.drop_last()[i] == s[i]);
                }
            }
        }
    }
}

/// Finds the last dash of `s`.
fn find_last_dash(s: &Vec<char>) -> (at: Option<usize>)
    ensures
        match at {
            Some(at) => at < s.len() && last_dash(s@) == Some(at as int),
            None => last_dash(s@) is None,
        },
{
    let mut i: usize = s.len();
    assert(s@.take(i as int) =~= s@);
    while i > 0
        invariant
            i <= s@.len(),
            last_dash(s@) == last_dash(s@.take(i as int)),
        decreases i,
    {
        if s[i - 1] == '-' {
            return Some(i - 1);
        }
        assert(s@.take(i as int).drop_last() =~= s@.take(i - 1));
        i -= 1;
    }
    None
}

/// Reads what `body` asks for.
pub fn self_profile_query(body: &Request) -> (res: Result<Query, String>)
    ensures
        match res {
            Ok(query) => query_of(*body) == Ok::<(Seq<char>, Seq<char>, i32), Seq<char>>(
                (query.bench_ty@, query.bench_name@, query.sort_idx),
            ),
            Err(message) => query_of(*body) == Err::<(Seq<char>, Seq<char>, i32), Seq<char>>(
                message@,
            ),
        },
{
    let chars: Vec<char> = text::to_chars(body.benchmark.as_str());
    match find_last_dash(&chars) {
        None => Err("no benchmark name".to_string()),
        Some(dash) => match number::parse_i32(body.sort_idx.as_str()) {
            None => Err("sort_idx needs to be i32".to_string()),
            Some(sort_idx) => Ok(
                Query {
                    bench_ty: text::from_chars(&chars, dash + 1, chars.len()),
                    bench_name: text::from_chars(&chars, 0, dash),
                    sort_idx,
                },
            ),
        },
    }
}

/// Whether `body` can be answered with a profile: it asks for something, the benchmark was found,
/// and the run that is asked for has a profile.
pub open spec fn is_answerable<P>(body: Request, benchmark: Result<Benchmark<P>, String>) -> bool {
    match (query_of(body), benchmark) {
        (Ok((bench_ty, _, _)), Ok(benchmark)) => self_profile::asked_queries(
            benchmark,
            bench_ty,
            body.run_name@,
        ) is Some,
        _ => false,
    }
}

/// Whether what `body` asks for of `benchmark`, if anything is found, can be shown.
pub open spec fn can_be_answered<P>(
    body: Request,
    benchmark: Result<Benchmark<P>, String>,
    is_base: bool,
) -> bool {
    match (query_of(body), benchmark) {
        (Ok((bench_ty, _, sort_idx)), Ok(benchmark)) => self_profile::is_showable(
            benchmark,
            bench_ty,
            body.run_name@,
            if is_base {
                None
            } else {
                Some(sort_idx)
            },
        ),
        _ => true,
    }
}

/// Whether `base_benchmark` is what was found at the base commit of `body`, if it has one.
pub open spec fn is_base_of<P>(
    body: Request,
    base_benchmark: Option<Result<Benchmark<P>, String>>,
) -> bool {
    match base_benchmark {
        Some(base_benchmark) => body.base_commit is Some && can_be_answered(
            body,
            base_benchmark,
            true,
        ),
        None => body.base_commit is None,
    }
}

/// Whether the benchmark is to be looked up at the base commit too: only where there is a profile
/// to stand beside.
pub fn needs_base<P>(body: &Request, benchmark: &Result<Benchmark<P>, String>) -> (res: bool)
    ensures
        res == (body.base_commit is Some && is_answerable(*body, *benchmark)),
{
    match (self_profile_query(body), benchmark) {
        (Ok(query), Ok(benchmark)) => body.base_commit.is_some() && self_profile::has_profile(
            benchmark,
            query.bench_ty.as_str(),
            body.run_name.as_str(),
        ),
        _ => false,
    }
}

/// Whether `res` shows `profile`, beside the profile of the base commit if one is asked for.
pub open spec fn answers_base<A: Arithmetic>(
    res: Result<Response<A::Plotted>, String>,
    body: Request,
    profile: SelfProfile<A::Plotted>,
    bench_ty: Seq<char>,
    base_benchmark: Option<Result<Benchmark<A::Point>, String>>,
) -> bool {
    match base_benchmark {
        None => res matches Ok(response) && response.profile == profile
            && response.base_profile is None,
        Some(Err(message)) => res matches Err(e) && e@ == message@,
        Some(Ok(base_benchmark)) => exists|base: Result<SelfProfile<A::Plotted>, String>|
            {
                &&& #[trigger] self_profile::answers_profile::<A>(
                    base,
                    base_benchmark,
                    bench_ty,
                    body.run_name@,
                    None,
                )
                &&& match base {
                    Err(message) => res matches Err(e) && e@ == message@,
                    Ok(base_profile) => res matches Ok(response) && response.profile == profile
                        && response.base_profile == Some(base_profile),
                }
            },
    }
}

/// Whether `res` shows the profile of the run that `bench_ty` names, or says why there is none.
pub open spec fn answers_query<A: Arithmetic>(
    res: Result<Response<A::Plotted>, String>,
    body: Request,
    bench_ty: Seq<char>,
    sort_idx: i32,
    benchmark: Benchmark<A::Point>,
    base_benchmark: Option<Result<Benchmark<A::Point>, String>>,
) -> bool {
    exists|profile: Result<SelfProfile<A::Plotted>, String>|
        {
            &&& #[trigger] self_profile::answers_profile::<A>(
                profile,
                benchmark,
                bench_ty,
                body.run_name@,
                Some(sort_idx),
            )
            &&& match profile {
                Err(message) => res matches Err(e) && e@ == message@,
                Ok(profile) => answers_base::<A>(res, body, profile, bench_ty, base_benchmark),
            }
        }
}

/// What `handle_self_profile` returns: the message of the first step that fails, or the profiles.
pub open spec fn answers<A: Arithmetic>(
    res: Result<Response<A::Plotted>, String>,
    body: Request,
    benchmark: Result<Benchmark<A::Point>, String>,
    base_benchmark: Option<Result<Benchmark<A::Point>, String>>,
) -> bool {
    match query_of(body) {
        Err(message) => res matches Err(e) && e@ == message,
        Ok((bench_ty, _, sort_idx)) => match benchmark {
            Err(message) => res matches Err(e) && e@ == message@,
            Ok(benchmark) => answers_query::<A>(
                res,
                body,
                bench_ty,
                sort_idx,
                benchmark,
                base_benchmark,
            ),
        },
    }
}

/// An answer shows the run that the request names, sorted by the column that it names, and beside
/// it, if the request has a base commit, the run of the same type and name there, in the order in
/// which it was recorded.
pub proof fn lemma_both_profiles_are_of_the_run<A: Arithmetic>(
    response: Response<A::Plotted>,
    body: Request,
    benchmark: Result<Benchmark<A::Point>, String>,
    base_benchmark: Option<Result<Benchmark<A::Point>, String>>,
    bench_name: Seq<char>,
    bench_ty: Seq<char>,
)
    requires
        body.benchmark@ == bench_name.push('-') + bench_ty,
        !bench_ty.contains('-'),
        answers::<A>(Ok(response), body, benchmark, base_benchmark),
    ensures
        benchmark is Ok,
        number::i32_value(body.sort_idx@) is Some,
        self_profile::answers_profile::<A>(
            Ok(response.profile),
            benchmark->Ok_0,
            bench_ty,
            body.run_name@,
            Some(number::i32_value(body.sort_idx@)->0 as i32),
        ),
        response.base_profile is Some <==> base_benchmark is Some,
        base_benchmark is Some ==> base_benchmark->0 is Ok && self_profile::answers_profile::<A>(
            Ok(response.base_profile->0),
            base_benchmark->0->Ok_0,
            bench_ty,
            body.run_name@,
            None,
        ),
{
    lemma_what_is_asked_for(body);
    assert(body.benchmark@[bench_name.len() as int] == '-');
    assert(body.benchmark@.contains('-'));
}

/// A request that can be read is answered with the message of the first lookup that failed, and
/// one whose run is found at every commit that it names is answered with profiles.
pub proof fn lemma_first_failure_is_told<A: Arithmetic>(
    res: Result<Response<A::Plotted>, String>,
    body: Request,
    benchmark: Result<Benchmark<A::Point>, String>,
    base_benchmark: Option<Result<Benchmark<A::Point>, String>>,
    bench_name: Seq<char>,
    bench_ty: Seq<char>,
)
    requires
        body.benchmark@ == bench_name.push('-') + bench_ty,
        !bench_ty.contains('-'),
        number::i32_value(body.sort_idx@) is Some,
        answers::<A>(res, body, benchmark, base_benchmark),
    ensures
        benchmark matches Err(message) ==> (res matches Err(e) && e@ == message@),
        benchmark matches Ok(benchmark) ==> {
            let found = self_profile::asked_queries(benchmark, bench_ty, body.run_name@) is Some;
            &&& !found ==> (res matches Err(e) && (e@ == "No such run"@ || e@
                == "No self profile results for this commit"@))
            &&& found && base_benchmark is None ==> res is Ok
            &&& found && base_benchmark is Some ==> match base_benchmark->0 {
                Err(message) => res matches Err(e) && e@ == message@,
                Ok(base) => res is Ok <==> self_profile::asked_queries(
                    base,
                    bench_ty,
                    body.run_name@,
                ) is Some,
            }
        },
{
    lemma_what_is_asked_for(body);
}

/// The base commit is looked at exactly where the request has one and would be answered with a
/// profile without it.
pub proof fn lemma_base_is_needed<A: Arithmetic>(
    res: Result<Response<A::Plotted>, String>,
    body: Request,
    benchmark: Result<Benchmark<A::Point>, String>,
    needed: bool,
)
    requires
        answers::<A>(res, body, benchmark, None),
        call_ensures(needs_base::<A::Point>, (&body, &benchmark), needed),
    ensures
        needed <==> body.base_commit is Some && res is Ok,
        is_answerable(body, benchmark) <==> res is Ok,
{
}

/// Answers `body`. `benchmark` is what was found of the benchmark that the request names at its
/// commit, and `base_benchmark` what was found at its base commit; it is not looked at where
/// there is no profile to stand beside.
pub fn handle_self_profile<A: Arithmetic>(
    body: &Request,
    benchmark: Result<Benchmark<A::Point>, String>,
    base_benchmark: Option<Result<Benchmark<A::Point>, String>>,
) -> (res: Result<Response<A::Plotted>, String>)
    requires
        can_be_answered(*body, benchmark, false),
        is_answerable(*body, benchmark) ==> is_base_of(*body, base_benchmark),
    ensures
        answers::<A>(res, *body, benchmark, base_benchmark),
{
    let query: Query = match self_profile_query(body) {
        Ok(query) => query,
        Err(message) => {
            return Err(message);
        },
    };
    let benchmark: Benchmark<A::Point> = match benchmark {
        Ok(benchmark) => benchmark,
        Err(message) => {
            return Err(message);
        },
    };
    let found: Result<SelfProfile<A::Plotted>, String> = self_profile::get_self_profile_data::<A>(
        &benchmark,
        query.bench_ty.as_str(),
        body.run_name.as_str(),
        Some(query.sort_idx),
    );
    let profile: SelfProfile<A::Plotted> = match found {
        Ok(profile) => profile,
        Err(message) => {
            return Err(message);
        },
    };
    match base_benchmark {
        None => Ok(Response { base_profile: None, profile }),
        Some(Err(message)) => Err(message),
        Some(Ok(base_benchmark)) => {
            let base: Result<SelfProfile<A::Plotted>, String> =
                self_profile::get_self_profile_data::<A>(
                &base_benchmark,
                query.bench_ty.as_str(),
                body.run_name.as_str(),
                None,
            );
            match base {
                Ok(base_profile) => Ok(Response { base_profile: Some(base_profile), profile }),
                Err(message) => Err(message),
            }
        },
    }
}

} // verus!
