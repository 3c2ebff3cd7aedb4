# hlpll-backtester

A bubble backtester built on the log-periodic power law (LPPL): it fits the model to daily
prices, turns the residuals into a bubble score, walks a long/short/flat strategy through the
bars, and measures how many windows of history carry a bubble signature.

`src/` is the verified library. Every number a strategy rests on is a `Real`, the bit pattern
of an IEEE 754 double, and its arithmetic is proved to be the correctly rounded one; so the
contracts of scores, positions, equity curves and statistics are exact.

| Part | Modules |
|------|---------|
| Numbers | `rounding`, `binary64`, `order`, `constants`, `stats` |
| Days and text | `dates`, `text` |
| Prices | `data` |
| Model and search | `lppl`, `search` |
| Bubble confidence | `confidence`, `prediction` |
| Scores and signals | `bubble_score`, `hype`, `sentiment`, `hlppl_signals`, `fast_signals` |
| Strategy | `config`, `backtest`, `backtest_laws`, `engine` |
| Tables and charts | `utils`, `charts` |
| Screens | `form`, `explorer`, `desktop`, `cli` |

Functions whose names start with `law_` state what holds of the library as a whole.

`app/` holds the program around it: the network, the files, the screens, and the
floating-point functions (logarithms, powers, cosines, the linear solver, the random draws)
whose results the library takes as plain values. `tests/` runs the library on concrete values,
in large part against the hardware's own arithmetic.
